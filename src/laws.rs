//! What holds of every scan.
use vstd::prelude::*;

use crate::link::{is_local, link_view, local_links, markdown_events, LinkView};
use crate::scan::{broken_reports, document_links, document_reports, location, report_of, ReportView};
use crate::text::{index_of, line_at, line_number, occurrences};

verus! {

/// Events without a link opening give no local link.
proof fn lemma_no_link_events(events: Seq<(nat, Option<Seq<char>>)>)
    requires
        forall|i: int| 0 <= i < events.len() ==> (#[trigger] events[i]).1 is None,
    ensures
        local_links(events).len() == 0,
    decreases events.len(),
{
    if events.len() > 0 {
        lemma_no_link_events(events.drop_last());
    }
}

/// A document without links gives no report, whatever the file system says.
pub proof fn law_no_links_no_reports(text: Seq<char>, broken: Seq<bool>, label: Seq<char>)
    requires
        forall|i: int|
            0 <= i < markdown_events(text).len() ==> (#[trigger] markdown_events(text)[i]).1 is None,
    ensures
        document_links(text).len() == 0,
        document_reports(text, broken, label).len() == 0,
{
    lemma_no_link_events(markdown_events(text));
}

/// A link whose destination holds a scheme delimiter is dropped: the local
/// links are those of the same events with that link taken out.
pub proof fn law_scheme_links_dropped(events: Seq<(nat, Option<Seq<char>>)>, i: int)
    requires
        0 <= i < events.len(),
        events[i].1 matches Some(uri) && !is_local(uri),
    ensures
        local_links(events.update(i, (events[i].0, None))) == local_links(events),
    decreases events.len(),
{
    let changed = events.update(i, (events[i].0, None));
    if i < events.len() - 1 {
        law_scheme_links_dropped(events.drop_last(), i);
        assert(changed.drop_last() == events.drop_last().update(i, (events[i].0, None)));
        assert(changed.last() == events.last());
    } else {
        assert(changed.drop_last() == events.drop_last());
    }
}

/// Where the file system finds every link's place, nothing is reported.
pub proof fn law_present_links_not_reported(
    bytes: Seq<u8>,
    links: Seq<LinkView>,
    broken: Seq<bool>,
    label: Seq<char>,
)
    requires
        broken.len() == links.len(),
        forall|j: int| 0 <= j < broken.len() ==> !broken[j],
    ensures
        broken_reports(bytes, links, broken, label).len() == 0,
    decreases links.len(),
{
    if links.len() > 0 {
        law_present_links_not_reported(bytes, links.drop_last(), broken.drop_last(), label);
        lemma_reports_ignore_extra_answers(bytes, links.drop_last(), broken.drop_last(), broken, label);
    }
}

/// Where the file system misses exactly one link's place, exactly one report
/// is made, for that link and with its line.
pub proof fn law_missing_link_reported_once(
    bytes: Seq<u8>,
    links: Seq<LinkView>,
    broken: Seq<bool>,
    label: Seq<char>,
    i: int,
)
    requires
        broken.len() == links.len(),
        0 <= i < links.len(),
        broken[i],
        forall|j: int| 0 <= j < broken.len() && j != i ==> !broken[j],
    ensures
        broken_reports(bytes, links, broken, label) == seq![report_of(bytes, links[i], label)],
        broken_reports(bytes, links, broken, label)[0].line == line_number(bytes, links[i].offset),
    decreases links.len(),
{
    let last = links.len() - 1;
    lemma_reports_ignore_extra_answers(bytes, links.drop_last(), broken.drop_last(), broken, label);
    if i == last {
        law_present_links_not_reported(bytes, links.drop_last(), broken.drop_last(), label);
    } else {
        law_missing_link_reported_once(bytes, links.drop_last(), broken.drop_last(), label, i);
    }
}

/// Answers past the links do not change their reports.
proof fn lemma_reports_ignore_extra_answers(
    bytes: Seq<u8>,
    links: Seq<LinkView>,
    a: Seq<bool>,
    b: Seq<bool>,
    label: Seq<char>,
)
    requires
        a.len() == links.len(),
        b.len() >= a.len(),
        forall|j: int| 0 <= j < a.len() ==> a[j] == b[j],
    ensures
        broken_reports(bytes, links, a, label) == broken_reports(bytes, links, b, label),
    decreases links.len(),
{
    if links.len() > 0 {
        lemma_reports_ignore_extra_answers(bytes, links.drop_last(), a.drop_last(), a, label);
        lemma_reports_ignore_extra_answers(bytes, links.drop_last(), a.drop_last(), b, label);
    }
}

/// An anchor-only destination is a relative link with an empty path, whose
/// place on disk is the parent directory itself.
pub proof fn law_anchor_only_is_parent(offset: nat, uri: Seq<char>, parent: Seq<char>)
    requires
        uri.len() > 0,
        uri[0] == '#',
    ensures
        link_view(offset, uri).is_relative,
        link_view(offset, uri).path.len() == 0,
        location(link_view(offset, uri), parent) == parent,
{
    assert(index_of(uri, '#') == Some(0nat));
}

/// A link after exactly `k` newlines stands on line `k + 1`; the line that
/// a report carries is that number wherever a `usize` holds it.
pub proof fn law_line_after_newlines(bytes: Seq<u8>, offset: nat, k: nat)
    requires
        offset <= bytes.len(),
        occurrences(bytes.subrange(0, offset as int), 10u8) == k,
    ensures
        line_at(bytes, offset) == k + 1,
        k + 1 <= usize::MAX ==> line_number(bytes, offset) == k + 1,
{
}

/// An absolute destination is looked up as it stands, never joined to the parent directory.
pub proof fn law_absolute_not_joined(offset: nat, uri: Seq<char>, parent: Seq<char>)
    requires
        uri.len() > 0,
        uri[0] == '/',
    ensures
        !link_view(offset, uri).is_relative,
        location(link_view(offset, uri), parent) == link_view(offset, uri).path,
{
}

/// Newlines in a prefix never outnumber those in a longer prefix.
proof fn lemma_occurrences_prefix(s: Seq<u8>, b: u8, e: int, f: int)
    requires
        0 <= e <= f <= s.len(),
    ensures
        occurrences(s.subrange(0, e), b) <= occurrences(s.subrange(0, f), b),
    decreases f - e,
{
    if e < f {
        lemma_occurrences_prefix(s, b, e, f - 1);
        assert(s.subrange(0, f).drop_last() == s.subrange(0, f - 1));
    }
}

/// A later offset never stands on an earlier line.
proof fn lemma_line_number_grows(bytes: Seq<u8>, a: nat, b: nat)
    requires
        a <= b,
    ensures
        line_number(bytes, a) <= line_number(bytes, b),
{
    let ea = if a <= bytes.len() { a } else { bytes.len() };
    let eb = if b <= bytes.len() { b } else { bytes.len() };
    lemma_occurrences_prefix(bytes, 10u8, ea as int, eb as int);
}

/// `rep` is the report of one of `links` that the answers mark.
pub open spec fn reports_a_marked_link(
    bytes: Seq<u8>,
    links: Seq<LinkView>,
    broken: Seq<bool>,
    label: Seq<char>,
    rep: ReportView,
) -> bool {
    exists|k: int| 0 <= k < links.len() && broken[k] && rep == report_of(bytes, #[trigger] links[k], label)
}

/// Every report is the report of one of the links that the answers mark.
proof fn lemma_report_source(
    bytes: Seq<u8>,
    links: Seq<LinkView>,
    broken: Seq<bool>,
    label: Seq<char>,
)
    ensures
        forall|r: int|
            0 <= r < broken_reports(bytes, links, broken, label).len() ==> reports_a_marked_link(
                bytes,
                links,
                broken,
                label,
                #[trigger] broken_reports(bytes, links, broken, label)[r],
            ),
    decreases links.len(),
{
    if links.len() > 0 {
        let prev = links.drop_last();
        lemma_report_source(bytes, prev, broken, label);
        let before = broken_reports(bytes, prev, broken, label);
        let all = broken_reports(bytes, links, broken, label);
        assert forall|r: int| 0 <= r < all.len() implies reports_a_marked_link(
            bytes,
            links,
            broken,
            label,
            #[trigger] all[r],
        ) by {
            if r < before.len() {
                assert(reports_a_marked_link(bytes, prev, broken, label, before[r]));
                let k = choose|k: int|
                    0 <= k < prev.len() && broken[k] && before[r] == report_of(bytes, #[trigger] prev[k], label);
                assert(all[r] == before[r]);
                assert(prev[k] == links[k]);
            } else {
                let k = links.len() - 1;
                assert(all[r] == report_of(bytes, links[k], label));
            }
        }
    }
}

/// Links met in document order, with offsets that never go back, give
/// reports whose line numbers never go back.
pub proof fn law_report_lines_in_order(
    bytes: Seq<u8>,
    links: Seq<LinkView>,
    broken: Seq<bool>,
    label: Seq<char>,
)
    requires
        forall|i: int, j: int| 0 <= i < j < links.len() ==> links[i].offset <= links[j].offset,
    ensures
        forall|i: int, j: int|
            0 <= i < j < broken_reports(bytes, links, broken, label).len() ==> broken_reports(
                bytes,
                links,
                broken,
                label,
            )[i].line <= broken_reports(bytes, links, broken, label)[j].line,
    decreases links.len(),
{
    if links.len() > 0 {
        let prev = links.drop_last();
        let last = links.last();
        law_report_lines_in_order(bytes, prev, broken, label);
        lemma_report_source(bytes, prev, broken, label);
        let before = broken_reports(bytes, prev, broken, label);
        let all = broken_reports(bytes, links, broken, label);
        if broken[links.len() - 1] {
            assert forall|i: int| 0 <= i < before.len() implies before[i].line <= line_number(
                bytes,
                last.offset,
            ) by {
                assert(reports_a_marked_link(bytes, prev, broken, label, before[i]));
                let k = choose|k: int|
                    0 <= k < prev.len() && broken[k] && before[i] == report_of(bytes, #[trigger] prev[k], label);
                assert(prev[k] == links[k]);
                lemma_line_number_grows(bytes, links[k].offset, last.offset);
            }
            assert forall|i: int, j: int| 0 <= i < j < all.len() implies all[i].line
                <= all[j].line by {
                if j == all.len() - 1 {
                    assert(all[i] == before[i]);
                } else {
                    assert(all[i] == before[i]);
                    assert(all[j] == before[j]);
                }
            }
        }
    }
}

/// How many of `b` are true.
pub open spec fn count_true(b: Seq<bool>) -> nat
    decreases b.len(),
{
    if b.len() == 0 {
        0
    } else {
        count_true(b.drop_last()) + if b.last() {
            1nat
        } else {
            0nat
        }
    }
}

/// One report per link whose place the file system misses, none for the
/// others, and each missing link's report, with its line, is among them.
pub proof fn law_missing_links_reported(
    bytes: Seq<u8>,
    links: Seq<LinkView>,
    broken: Seq<bool>,
    label: Seq<char>,
)
    requires
        broken.len() == links.len(),
    ensures
        broken_reports(bytes, links, broken, label).len() == count_true(broken),
        forall|i: int|
            0 <= i < links.len() && broken[i] ==> broken_reports(bytes, links, broken, label).contains(
                #[trigger] report_of(bytes, links[i], label),
            ),
    decreases links.len(),
{
    if links.len() > 0 {
        let prev = links.drop_last();
        let b = broken.drop_last();
        law_missing_links_reported(bytes, prev, b, label);
        lemma_reports_ignore_extra_answers(bytes, prev, b, broken, label);
        let before = broken_reports(bytes, prev, broken, label);
        let all = broken_reports(bytes, links, broken, label);
        assert forall|i: int| 0 <= i < links.len() && broken[i] implies all.contains(
            #[trigger] report_of(bytes, links[i], label),
        ) by {
            if i < links.len() - 1 {
                assert(prev[i] == links[i]);
                assert(b[i] == broken[i]);
                let j = choose|j: int| 0 <= j < before.len() && before[j] == report_of(bytes, prev[i], label);
                assert(all[j] == before[j]);
            } else {
                assert(all[all.len() - 1] == report_of(bytes, links[i], label));
            }
        }
    }
}

} // verus!
