use vstd::prelude::*;
use vstd::string::StringSliceAdditionalSpecFns;
use vstd::utf8::{encode_utf8, valid_utf8};

use crate::error::MdckError;
use crate::link::{document_link_files, local_links, markdown_events, LinkFile, LinkView};
use crate::text::{line_from_offset, line_number};

verus! {

/// What `Path::join` gives on Unix: a path that starts at the root replaces
/// the base; otherwise a `/` goes between the two unless the base is empty or
/// already ends in one.
pub open spec fn joined_path(base: Seq<char>, rel: Seq<char>) -> Seq<char> {
    if rel.len() > 0 && rel[0] == '/' {
        rel
    } else if base.len() > 0 && base.last() != '/' {
        base + seq!['/'] + rel
    } else {
        base + rel
    }
}

/// Relies on std::path::Path::join, which pushes `rel` onto `base` as
/// `PathBuf::push` documents; both are UTF-8, so the lossy conversion keeps
/// every character.
#[verifier::external_body]
fn join_path(base: &str, rel: &str) -> (r: String)
    ensures
        r@ == joined_path(base@, rel@),
{
    std::path::Path::new(base).join(rel).to_string_lossy().into_owned()
}

/// Relies on std::path::Path::exists. The answer depends on the file system,
/// so nothing is stated of it.
#[verifier::external_body]
fn path_exists(p: &str) -> (r: bool) {
    std::path::Path::new(p).exists()
}

/// The place on disk that a link names: an absolute path as it stands, an
/// empty relative path as the parent directory itself, any other relative
/// path joined to the parent directory.
pub open spec fn location(l: LinkView, parent: Seq<char>) -> Seq<char> {
    if !l.is_relative {
        l.path
    } else if l.path.len() == 0 {
        parent
    } else {
        joined_path(parent, l.path)
    }
}

/// The place on disk that `link` names, seen from directory `parent`.
pub fn link_location(link: &LinkFile, parent: &str) -> (r: String)
    ensures
        r@ == location(link@, parent@),
{
    if !link.is_relative {
        link.path.clone()
    } else if link.path.as_str().unicode_len() == 0 {
        parent.to_owned()
    } else {
        join_path(parent, link.path.as_str())
    }
}

/// Whether the place that `link` names is missing. A failure to look is
/// taken as missing.
pub fn broken_link_file(link: &LinkFile, parent: &str) -> (r: bool) {
    let place = link_location(link, parent);
    !path_exists(place.as_str())
}

/// What a report says: the document's label, the line and the link's path.
pub struct ReportView {
    pub label: Seq<char>,
    pub line: nat,
    pub destination: Seq<char>,
}

/// One broken link of one document.
#[derive(Debug)]
pub struct BrokenLink {
    pub label: String,
    pub line: usize,
    pub destination: String,
}

impl View for BrokenLink {
    type V = ReportView;

    open spec fn view(&self) -> ReportView {
        ReportView { label: self.label@, line: self.line as nat, destination: self.destination@ }
    }
}

/// The report for link `l` of the document whose bytes are `bytes`.
pub open spec fn report_of(bytes: Seq<u8>, l: LinkView, label: Seq<char>) -> ReportView {
    ReportView { label, line: line_number(bytes, l.offset), destination: l.path }
}

/// The reports for those of `links` that `broken` marks, in order.
pub open spec fn broken_reports(
    bytes: Seq<u8>,
    links: Seq<LinkView>,
    broken: Seq<bool>,
    label: Seq<char>,
) -> Seq<ReportView>
    decreases links.len(),
{
    if links.len() == 0 {
        Seq::empty()
    } else {
        let before = broken_reports(bytes, links.drop_last(), broken, label);
        if broken[links.len() - 1] {
            before.push(report_of(bytes, links.last(), label))
        } else {
            before
        }
    }
}

/// The links of a document's text, classified, in order.
pub open spec fn document_links(text: Seq<char>) -> Seq<LinkView> {
    local_links(markdown_events(text))
}

/// The reports of a document, for one answer of the file system on each of its links.
pub open spec fn document_reports(
    text: Seq<char>,
    broken: Seq<bool>,
    label: Seq<char>,
) -> Seq<ReportView> {
    broken_reports(encode_utf8(text), document_links(text), broken, label)
}

/// Reports each of `links` that `broken` marks, with the line it stands on.
pub fn reports_for(contents: &str, links: &Vec<LinkFile>, broken: &Vec<bool>, label: &str) -> (r:
    Vec<BrokenLink>)
    requires
        broken@.len() == links@.len(),
    ensures
        r@.map_values(|b: BrokenLink| b@) == broken_reports(
            contents.spec_bytes(),
            links@.map_values(|l: LinkFile| l@),
            broken@,
            label@,
        ),
{
    let ghost views = links@.map_values(|l: LinkFile| l@);
    let bytes = contents.as_bytes();
    let len = bytes.len();
    let mut out: Vec<BrokenLink> = Vec::new();
    let mut i: usize = 0;
    while i < links.len()
        invariant
            i <= links@.len(),
            broken@.len() == links@.len(),
            views == links@.map_values(|l: LinkFile| l@),
            bytes@ == contents.spec_bytes(),
            len == bytes@.len(),
            out@.map_values(|b: BrokenLink| b@) == broken_reports(
                contents.spec_bytes(),
                views.subrange(0, i as int),
                broken@,
                label@,
            ),
        decreases links.len() - i,
    {
        let ghost next = views.subrange(0, i + 1);
        assert(next.drop_last() == views.subrange(0, i as int));
        if broken[i] {
            let link = &links[i];
            let offset = if link.offset <= len {
                link.offset
            } else {
                len
            };
            let line = line_from_offset(contents, offset);
            assert(line_number(contents.spec_bytes(), offset as nat) == line_number(
                contents.spec_bytes(),
                link.offset as nat,
            ));
            out.push(
                BrokenLink {
                    label: label.to_owned(),
                    line,
                    destination: link.path.clone(),
                },
            );
        }
        assert(out@.map_values(|b: BrokenLink| b@) =~= broken_reports(
            contents.spec_bytes(),
            next,
            broken@,
            label@,
        ));
        i = i + 1;
    }
    assert(views.subrange(0, links@.len() as int) == views);
    out
}

/// Scans one document: every local link whose place on disk is missing is
/// reported, in document order, with its line. Which places are missing is
/// for the file system to say.
pub fn broken_links(contents: &str, parent: &str, label: &str) -> (r: Vec<BrokenLink>)
    ensures
        exists|broken: Seq<bool>|
            broken.len() == document_links(contents@).len() && r@.map_values(
                |b: BrokenLink| b@,
            ) == #[trigger] document_reports(contents@, broken, label@),
{
    let links = document_link_files(contents);
    let mut broken: Vec<bool> = Vec::new();
    let mut i: usize = 0;
    while i < links.len()
        invariant
            i <= links@.len(),
            broken@.len() == i,
        decreases links.len() - i,
    {
        broken.push(broken_link_file(&links[i], parent));
        i = i + 1;
    }
    let r = reports_for(contents, &links, &broken, label);
    assert(document_reports(contents@, broken@, label@) == r@.map_values(|b: BrokenLink| b@));
    r
}

/// Relies on String::from_utf8: it succeeds exactly on valid UTF-8, and the
/// string then holds those bytes.
#[verifier::external_body]
fn decode_utf8(bytes: Vec<u8>) -> (r: Option<String>)
    ensures
        r is Some <==> valid_utf8(bytes@),
        r matches Some(s) ==> encode_utf8(s@) == bytes@,
{
    String::from_utf8(bytes).ok()
}

/// Scans a document given as bytes, which must be valid UTF-8.
pub fn show_broken_readable(buffer: Vec<u8>, parent: &str, label: &str) -> (r: Result<
    Vec<BrokenLink>,
    MdckError,
>)
    ensures
        r is Err <==> !valid_utf8(buffer@),
        r matches Err(e) ==> e is FromUtf,
        r matches Ok(reports) ==> exists|text: Seq<char>, broken: Seq<bool>|
            encode_utf8(text) == buffer@ && broken.len() == document_links(text).len()
                && reports@.map_values(|b: BrokenLink| b@) == #[trigger] document_reports(
                text,
                broken,
                label@,
            ),
{
    let ghost bytes = buffer@;
    match decode_utf8(buffer) {
        Some(contents) => {
            let r = broken_links(contents.as_str(), parent, label);
            Ok(r)
        },
        None => Err(MdckError::FromUtf("invalid utf-8 sequence".to_owned())),
    }
}

/// One document to check: its text, the directory its links start from, and
/// the label its reports carry.
pub struct Document {
    pub text: String,
    pub parent: String,
    pub label: String,
}

/// The reports of a list of documents, one after the other, for one answer
/// of the file system on each of their links.
pub open spec fn all_reports(docs: Seq<Document>, broken: Seq<Seq<bool>>) -> Seq<ReportView>
    decreases docs.len(),
{
    if docs.len() == 0 {
        Seq::empty()
    } else {
        let d = docs.last();
        all_reports(docs.drop_last(), broken) + document_reports(
            d.text@,
            broken[docs.len() - 1],
            d.label@,
        )
    }
}

/// Each document's answers cover its links.
pub open spec fn answers_fit(docs: Seq<Document>, broken: Seq<Seq<bool>>) -> bool {
    &&& broken.len() == docs.len()
    &&& forall|i: int|
        0 <= i < docs.len() ==> #[trigger] broken[i].len() == document_links(docs[i].text@).len()
}

/// Scans the documents in order and gives all their reports, those of the
/// first document first.
pub fn ck_sources(documents: &Vec<Document>) -> (r: Vec<BrokenLink>)
    ensures
        exists|broken: Seq<Seq<bool>>|
            answers_fit(documents@, broken) && r@.map_values(|b: BrokenLink| b@) == #[trigger] all_reports(
                documents@,
                broken,
            ),
{
    let mut out: Vec<BrokenLink> = Vec::new();
    let ghost mut answers: Seq<Seq<bool>> = Seq::empty();
    let mut i: usize = 0;
    while i < documents.len()
        invariant
            i <= documents@.len(),
            answers_fit(documents@.subrange(0, i as int), answers),
            out@.map_values(|b: BrokenLink| b@) == all_reports(documents@.subrange(0, i as int), answers),
        decreases documents.len() - i,
    {
        let d = &documents[i];
        let found = broken_links(d.text.as_str(), d.parent.as_str(), d.label.as_str());
        let ghost flags = choose|broken: Seq<bool>|
            broken.len() == document_links(d.text@).len() && found@.map_values(
                |b: BrokenLink| b@,
            ) == #[trigger] document_reports(d.text@, broken, d.label@);
        let ghost old_out = out@;
        let mut found = found;
        out.append(&mut found);
        proof {
            let next = documents@.subrange(0, i + 1);
            let prev = documents@.subrange(0, i as int);
            let prev_answers = answers;
            answers = answers.push(flags);
            assert(next.drop_last() == prev);
            assert(next.last() == *d);
            assert forall|j: int| 0 <= j < next.len() implies #[trigger] answers[j].len()
                == document_links(next[j].text@).len() by {
                if j < i {
                    assert(answers[j] == prev_answers[j]);
                    assert(next[j] == prev[j]);
                }
            }
            assert(all_reports(prev, answers) == all_reports(prev, prev_answers)) by {
                lemma_all_reports_prefix(prev, prev_answers, answers);
            }
            assert(out@.map_values(|b: BrokenLink| b@) =~= all_reports(next, answers));
        }
        i = i + 1;
    }
    assert(documents@.subrange(0, documents@.len() as int) == documents@);
    out
}

/// Answers past the documents do not change their reports.
proof fn lemma_all_reports_prefix(docs: Seq<Document>, a: Seq<Seq<bool>>, b: Seq<Seq<bool>>)
    requires
        a.len() == docs.len(),
        b.len() >= a.len(),
        forall|j: int| 0 <= j < a.len() ==> a[j] == b[j],
    ensures
        all_reports(docs, a) == all_reports(docs, b),
    decreases docs.len(),
{
    if docs.len() > 0 {
        lemma_all_reports_prefix(docs.drop_last(), a.drop_last(), b);
        assert forall|j: int| 0 <= j < a.drop_last().len() implies a.drop_last()[j] == b[j] by {}
        lemma_all_reports_prefix(docs.drop_last(), a.drop_last(), a);
    }
}

} // verus!
