use mdck::config::{Config, Source};
use mdck::link::{document_link_files, link_files, link_files_from_events, LinkFile, MdEvent, OffsetEvent};
use mdck::scan::{
    broken_link_file, broken_links, ck_sources, link_location, reports_for, show_broken_readable,
    BrokenLink, Document,
};
use mdck::text::{find_char, line_from_offset};
use mdck::MdckError;

fn destinations(reports: &[BrokenLink]) -> Vec<String> {
    reports.iter().map(|r| r.destination.clone()).collect()
}

#[test]
fn example_document_reports_only_missing_file() {
    // "/usr/../etc/passwd" exists and "/usr/missing.md" does not on any Linux system.
    let text = "See [a](missing.md) and [b](http://x.com/y)\nand [c](#frag)\n[d](../etc/passwd)";
    let reports = broken_links(text, "/usr", "doc.md");
    assert_eq!(reports.len(), 1);
    assert_eq!(reports[0].destination, "missing.md");
    assert_eq!(reports[0].line, 1);
    assert_eq!(reports[0].label, "doc.md");
}

#[test]
fn document_without_links_reports_nothing() {
    let text = "# Title\n\nJust some *text* and `code`.\n\n- a list\n";
    assert!(broken_links(text, "/definitely/missing/dir", "x").is_empty());
    assert!(broken_links("", "/definitely/missing/dir", "x").is_empty());
}

#[test]
fn scheme_links_are_never_reported() {
    let text = "[a](http://definitely/missing) [b](mailto:a@b) [c](c:missing)";
    assert!(broken_links(text, "/definitely/missing/dir", "x").is_empty());
}

#[test]
fn existing_relative_path_is_not_reported() {
    assert!(broken_links("[etc](etc)", "/", "x").is_empty());
    assert!(broken_links("[etc](etc#top)", "/", "x").is_empty());
}

#[test]
fn missing_relative_path_is_reported_once() {
    let reports = broken_links("[gone](no-such-file.md)", "/", "x");
    assert_eq!(destinations(&reports), vec!["no-such-file.md".to_string()]);
    assert_eq!(reports[0].line, 1);
}

#[test]
fn anchor_only_link_is_not_reported() {
    assert!(broken_links("[top](#top)", "/usr", "x").is_empty());
    let link = LinkFile::new(0, "#top");
    assert!(link.is_relative);
    assert_eq!(link.path, "");
    assert_eq!(link.fragment, Some("top".to_string()));
    assert_eq!(link_location(&link, "/usr"), "/usr");
}

#[test]
fn line_number_counts_preceding_newlines() {
    let text = "first\n\nsecond\n\n[gone](no-such-file.md)\n";
    let reports = broken_links(text, "/", "x");
    assert_eq!(reports.len(), 1);
    assert_eq!(reports[0].line, 5);
}

#[test]
fn line_from_offset_values() {
    let text = "ab\ncd\n\nef";
    assert_eq!(line_from_offset(text, 0), 1);
    assert_eq!(line_from_offset(text, 2), 1);
    assert_eq!(line_from_offset(text, 3), 2);
    assert_eq!(line_from_offset(text, 7), 4);
    assert_eq!(line_from_offset(text, text.len()), 4);
}

#[test]
fn absolute_path_is_not_joined() {
    let link = LinkFile::new(0, "/definitely/missing/path");
    assert!(!link.is_relative);
    assert_eq!(link_location(&link, "/usr"), "/definitely/missing/path");
    assert!(broken_link_file(&link, "/"));
    let present = LinkFile::new(0, "/usr");
    assert!(!broken_link_file(&present, "/definitely/missing/dir"));
    let reports = broken_links("[a](/definitely/missing/path)", "/", "x");
    assert_eq!(destinations(&reports), vec!["/definitely/missing/path".to_string()]);
}

#[test]
fn relative_path_is_joined_to_parent() {
    let link = LinkFile::new(0, "b/c.md");
    assert_eq!(link_location(&link, "/a"), "/a/b/c.md");
    assert_eq!(link_location(&link, "/a/"), "/a/b/c.md");
    assert_eq!(link_location(&link, ""), "b/c.md");
    assert_eq!(link_location(&LinkFile::new(0, "../x"), "."), "./../x");
}

#[test]
fn scanning_twice_gives_the_same_reports() {
    let text = "[a](one.md)\n[b](two.md)\n\n[c](etc)";
    let first = broken_links(text, "/", "x");
    let second = broken_links(text, "/", "x");
    assert_eq!(destinations(&first), vec!["one.md".to_string(), "two.md".to_string()]);
    assert_eq!(destinations(&first), destinations(&second));
    let lines: Vec<usize> = first.iter().map(|r| r.line).collect();
    assert_eq!(lines, vec![1, 2]);
    assert_eq!(lines, second.iter().map(|r| r.line).collect::<Vec<usize>>());
}

#[test]
fn link_file_splits_at_first_hash() {
    let link = LinkFile::new(7, "dir/a.md#x#y");
    assert_eq!(link.offset, 7);
    assert!(link.is_relative);
    assert_eq!(link.path, "dir/a.md");
    assert_eq!(link.fragment, Some("x#y".to_string()));
    let plain = LinkFile::new(0, "a.md");
    assert_eq!(plain.path, "a.md");
    assert_eq!(plain.fragment, None);
}

#[test]
fn document_links_keep_local_destinations() {
    let links = document_link_files("text [a](a.md) more [b](http://b)\n\n[c](/x#y)");
    assert_eq!(links.len(), 2);
    assert_eq!(links[0].path, "a.md");
    assert!(links[0].is_relative);
    assert_eq!(links[1].path, "/x");
    assert_eq!(links[1].fragment, Some("y".to_string()));
    assert!(!links[1].is_relative);
    assert!(document_link_files("no links here").is_empty());
}

#[test]
fn link_files_keep_event_order() {
    let events = vec![
        OffsetEvent { offset: 0, event: MdEvent::Other },
        OffsetEvent { offset: 2, event: MdEvent::LinkStart("b.md".to_string()) },
        OffsetEvent { offset: 5, event: MdEvent::LinkStart("https://x".to_string()) },
        OffsetEvent { offset: 9, event: MdEvent::LinkStart("#a".to_string()) },
    ];
    let links = link_files(&events);
    assert_eq!(links.len(), 2);
    assert_eq!((links[0].offset, links[0].path.as_str()), (2, "b.md"));
    assert_eq!((links[1].offset, links[1].path.as_str()), (9, ""));
}

#[test]
fn classification_drops_scheme_and_other_events() {
    assert!(link_files_from_events(0, &MdEvent::Other).is_none());
    assert!(link_files_from_events(0, &MdEvent::LinkStart("c:\\x".to_string())).is_none());
    let l = link_files_from_events(4, &MdEvent::LinkStart("x.md#s".to_string())).unwrap();
    assert_eq!(l.path, "x.md");
    assert_eq!(l.offset, 4);
}

#[test]
fn find_char_finds_first() {
    assert_eq!(find_char("a#b#", '#'), Some(1));
    assert_eq!(find_char("ab", '#'), None);
    assert_eq!(find_char("", '#'), None);
}

#[test]
fn reports_follow_the_answers() {
    let text = "l1\n[a](a.md)\n[b](b.md)";
    let links = document_link_files(text);
    assert_eq!(links.len(), 2);
    let reports = reports_for(text, &links, &vec![false, true], "lbl");
    assert_eq!(destinations(&reports), vec!["b.md".to_string()]);
    assert_eq!(reports[0].line, 3);
    assert_eq!(reports[0].label, "lbl");
    assert!(reports_for(text, &links, &vec![false, false], "lbl").is_empty());
}

#[test]
fn invalid_utf8_is_an_error() {
    match show_broken_readable(vec![0x5b, 0xff, 0xfe], "/", "STDIN") {
        Err(MdckError::FromUtf(_)) => {}
        other => panic!("unexpected {:?}", other),
    }
    let ok = show_broken_readable(b"[a](no-such-file.md)".to_vec(), "/", "STDIN").unwrap();
    assert_eq!(destinations(&ok), vec!["no-such-file.md".to_string()]);
    assert_eq!(ok[0].label, "STDIN");
}

#[test]
fn documents_are_scanned_in_order() {
    let docs = vec![
        Document { text: "[a](one.md)".to_string(), parent: "/".to_string(), label: "first".to_string() },
        Document { text: "[b](etc)".to_string(), parent: "/".to_string(), label: "second".to_string() },
        Document { text: "\n[c](two.md)".to_string(), parent: "/".to_string(), label: "third".to_string() },
    ];
    let reports = ck_sources(&docs);
    assert_eq!(destinations(&reports), vec!["one.md".to_string(), "two.md".to_string()]);
    assert_eq!(reports[0].label, "first");
    assert_eq!(reports[1].label, "third");
    assert_eq!(reports[1].line, 2);
}

#[test]
fn stdin_may_be_named_once() {
    let c = Config::new(vec![]).unwrap();
    assert_eq!(c.sources.len(), 1);
    assert!(c.sources[0].is_stdin());
    let c = Config::new(vec![Source::Stdin, Source::File("a.md".to_string())]).unwrap();
    assert_eq!(c.sources.len(), 2);
    match Config::new(vec![Source::Stdin, Source::Directory("d".to_string()), Source::Stdin]) {
        Err(e) => {
            assert!(matches!(e, MdckError::Internal(_)));
            assert_eq!(e.message(), "You may only use stdin once");
        }
        Ok(_) => panic!("stdin twice was accepted"),
    }
    match Config::multiple_stdin(&[Source::Stdin, Source::File("a.md".to_string()), Source::Stdin]) {
        Err(MdckError::Internal(m)) => assert_eq!(m, "You may only use stdin once"),
        other => panic!("unexpected {:?}", other),
    }
    assert!(Config::multiple_stdin(&[Source::Stdin, Source::Directory("d".to_string())]).is_ok());
    assert!(Config::multiple_stdin(&[]).is_ok());
    assert!(Config::multiple_stdin(&[Source::Stdin]).is_ok());
    assert!(!Source::File("x".to_string()).is_stdin());
}

#[test]
fn error_message_is_its_text() {
    assert_eq!(MdckError::Io("disk".to_string()).message(), "disk");
    assert_eq!(MdckError::WalkDir("walk".to_string()).message(), "walk");
    assert_eq!(MdckError::Clap("args".to_string()).message(), "args");
}

#[test]
fn markdown_names_end_in_md() {
    assert!(mdck::config::is_md("readme.md"));
    assert!(mdck::config::is_md(".md"));
    assert!(!mdck::config::is_md("readme.markdown"));
    assert!(!mdck::config::is_md("md"));
    assert!(!mdck::config::is_md("a.mdx"));
}
