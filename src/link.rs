use vstd::prelude::*;

use crate::text::{find_char, index_of};

verus! {

/// A markdown event, reduced to what link checking reads.
pub enum MdEvent {
    /// The opening of a link, with its destination as written.
    LinkStart(String),
    /// Any other event.
    Other,
}

/// A markdown event with the byte offset at which the parser stood before producing it.
pub struct OffsetEvent {
    pub offset: usize,
    pub event: MdEvent,
}

impl View for OffsetEvent {
    type V = (nat, Option<Seq<char>>);

    open spec fn view(&self) -> (nat, Option<Seq<char>>) {
        (
            self.offset as nat,
            match self.event {
                MdEvent::LinkStart(d) => Some(d@),
                MdEvent::Other => None,
            },
        )
    }
}

/// The events that pulldown-cmark produces for a document, each with its
/// offset and, for a link opening, the destination.
pub uninterp spec fn markdown_events(text: Seq<char>) -> Seq<(nat, Option<Seq<char>>)>;

/// Relies on pulldown_cmark::Parser: its events in order, each paired with
/// `Parser::get_offset` read before the event is produced; a link opening
/// keeps its destination. The parser reads the text alone.
#[verifier::external_body]
pub(crate) fn parse_events(text: &str) -> (r: Vec<OffsetEvent>)
    ensures
        r@.map_values(|e: OffsetEvent| e@) == markdown_events(text@),
{
    let mut parser = pulldown_cmark::Parser::new(text);
    let mut events = Vec::new();
    loop {
        let offset = parser.get_offset();
        let event = match parser.next() {
            Some(pulldown_cmark::Event::Start(pulldown_cmark::Tag::Link(d, _))) => MdEvent::LinkStart(d.to_string()),
            Some(_) => MdEvent::Other,
            None => return events,
        };
        events.push(OffsetEvent { offset, event });
    }
}

/// What a classified link is: its path, its fragment, whether the path is relative, and its offset.
pub struct LinkView {
    pub is_relative: bool,
    pub path: Seq<char>,
    pub fragment: Option<Seq<char>>,
    pub offset: nat,
}

/// A link destination that names a local file, split at its first `#`.
#[derive(Debug)]
pub struct LinkFile {
    pub is_relative: bool,
    pub path: String,
    pub fragment: Option<String>,
    pub offset: usize,
}

impl View for LinkFile {
    type V = LinkView;

    open spec fn view(&self) -> LinkView {
        LinkView {
            is_relative: self.is_relative,
            path: self.path@,
            fragment: match self.fragment {
                Some(f) => Some(f@),
                None => None,
            },
            offset: self.offset as nat,
        }
    }
}

/// A path is relative unless it starts with `/`.
pub open spec fn is_relative_path(p: Seq<char>) -> bool {
    !(p.len() > 0 && p[0] == '/')
}

/// The classified form of destination `uri` found at `offset`.
pub open spec fn link_view(offset: nat, uri: Seq<char>) -> LinkView {
    match index_of(uri, '#') {
        Some(i) => LinkView {
            is_relative: is_relative_path(uri),
            path: uri.subrange(0, i as int),
            fragment: Some(uri.subrange(i + 1 as int, uri.len() as int)),
            offset,
        },
        None => LinkView { is_relative: is_relative_path(uri), path: uri, fragment: None, offset },
    }
}

/// A destination names a local file when it holds no `:`, which would mark a scheme.
pub open spec fn is_local(uri: Seq<char>) -> bool {
    index_of(uri, ':') is None
}

/// The local links of an event sequence, classified, in order.
pub open spec fn local_links(events: Seq<(nat, Option<Seq<char>>)>) -> Seq<LinkView>
    decreases events.len(),
{
    if events.len() == 0 {
        Seq::empty()
    } else {
        let before = local_links(events.drop_last());
        let (offset, event) = events.last();
        match event {
            Some(uri) => if is_local(uri) {
                before.push(link_view(offset, uri))
            } else {
                before
            },
            None => before,
        }
    }
}

/// Where `index_of` finds `c`, `c` stands there.
proof fn lemma_index_of_bound(s: Seq<char>, c: char)
    ensures
        index_of(s, c) matches Some(i) ==> i < s.len() && s[i as int] == c,
    decreases s.len(),
{
    if s.len() > 0 {
        lemma_index_of_bound(s.drop_first(), c);
    }
}

impl LinkFile {
    /// Splits `uri` at its first `#` into path and fragment.
    pub fn new(offset: usize, uri: &str) -> (r: LinkFile)
        ensures
            r@ == link_view(offset as nat, uri@),
    {
        let n = uri.unicode_len();
        let is_relative = !(n > 0 && uri.get_char(0) == '/');
        match find_char(uri, '#') {
            Some(i) => {
                proof {
                    lemma_index_of_bound(uri@, '#');
                }
                LinkFile {
                    offset,
                    is_relative,
                    path: uri.substring_char(0, i).to_owned(),
                    fragment: Some(uri.substring_char(i + 1, n).to_owned()),
                }
            },
            None => LinkFile { offset, is_relative, path: uri.to_owned(), fragment: None },
        }
    }
}

/// Classifies one event: a link opening whose destination holds no `:`
/// becomes a `LinkFile`; anything else is dropped.
pub fn link_files_from_events(offset: usize, event: &MdEvent) -> (r: Option<LinkFile>)
    ensures
        match event {
            MdEvent::LinkStart(uri) => if is_local(uri@) {
                r matches Some(l) && l@ == link_view(offset as nat, uri@)
            } else {
                r is None
            },
            MdEvent::Other => r is None,
        },
{
    match event {
        MdEvent::LinkStart(uri) => {
            if find_char(uri.as_str(), ':').is_none() {
                Some(LinkFile::new(offset, uri.as_str()))
            } else {
                None
            }
        },
        MdEvent::Other => None,
    }
}

/// The local links among `events`, in document order.
pub fn link_files(events: &Vec<OffsetEvent>) -> (r: Vec<LinkFile>)
    ensures
        r@.map_values(|l: LinkFile| l@) == local_links(events@.map_values(|e: OffsetEvent| e@)),
{
    let ghost evs = events@.map_values(|e: OffsetEvent| e@);
    let mut out: Vec<LinkFile> = Vec::new();
    let mut i: usize = 0;
    while i < events.len()
        invariant
            i <= events.len(),
            evs == events@.map_values(|e: OffsetEvent| e@),
            out@.map_values(|l: LinkFile| l@) == local_links(evs.subrange(0, i as int)),
        decreases events.len() - i,
    {
        let e = &events[i];
        let ghost pre = evs.subrange(0, i as int);
        let ghost next = evs.subrange(0, i + 1);
        assert(next.drop_last() == pre);
        assert(next.last() == e@);
        match link_files_from_events(e.offset, &e.event) {
            Some(l) => {
                out.push(l);
            },
            None => {},
        }
        assert(out@.map_values(|l: LinkFile| l@) =~= local_links(next));
        i = i + 1;
    }
    assert(evs.subrange(0, events.len() as int) == evs);
    out
}

/// The local links of a markdown text, classified, in document order.
pub fn document_link_files(text: &str) -> (r: Vec<LinkFile>)
    ensures
        r@.map_values(|l: LinkFile| l@) == local_links(markdown_events(text@)),
{
    let events = parse_events(text);
    link_files(&events)
}

} // verus!
