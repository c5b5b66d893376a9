use roundup::date::Date;
use roundup::entry::{ReadState, ReadingListEntry};
use roundup::error::{RoundupErrorKind, STEM_NOT_A_DATE, STEM_NOT_DECODABLE};
use roundup::markup::{link_targets_of, tree_of, MarkupNode};
use roundup::scan::{
    accept_uri, date_for, entry_for, file_date, find_url, is_date_form, scan_body, scan_file,
    scan_lines, scan_tree, UriParts,
};

fn day() -> Date {
    Date { year: 2024, month: 3, day: 15 }
}

fn lines(text: &[&str]) -> Vec<String> {
    text.iter().map(|line| String::from(*line)).collect()
}

fn link(target: &str) -> MarkupNode {
    MarkupNode::Link(String::from(target))
}

#[test]
fn scan_body_takes_the_labelled_link() {
    let entry = scan_body(day(), "text [title](https://x/)").unwrap();
    assert_eq!(entry.url, "https://x/");
    assert_eq!(entry.source_date, day());
    assert_eq!(entry.original_text, "text [title](https://x/)");
    assert_eq!(entry.body_text, "text [title](https://x/)");
    assert_eq!(entry.read, ReadState::Unknown);
}

#[test]
fn scanning_an_entrys_original_text_again_gives_the_same_link() {
    let line = "- #reading text [title](https://x/)";
    let all = scan_lines(day(), &lines(&[line]), None).unwrap();
    assert_eq!(all.len(), 1);
    assert_eq!(all[0].url, "https://x/");
    assert_eq!(all[0].original_text, line);
    let again = scan_body(day(), &all[0].original_text).unwrap();
    assert_eq!(again.url, all[0].url);
}

#[test]
fn scan_body_takes_an_autolink() {
    let entry = scan_body(day(), "see <https://example.com/a?b=c>").unwrap();
    assert_eq!(entry.url, "https://example.com/a?b=c");
}

#[test]
fn scan_body_takes_a_bare_link_in_running_text() {
    let entry = scan_body(day(), "bare https://example.com/ in text").unwrap();
    assert_eq!(entry.url, "https://example.com/");
    assert_eq!(entry.body_text, "bare https://example.com/ in text");
    assert_eq!(scan_body(day(), "https://example.com/a/b").unwrap().url, "https://example.com/a/b");
    assert_eq!(scan_body(day(), "go to www.example.com now").unwrap().url, "http://www.example.com/");
}

#[test]
fn scan_body_gives_the_link_in_its_canonical_text() {
    assert_eq!(scan_body(day(), "[a](https://example.com)").unwrap().url, "https://example.com/");
    assert_eq!(
        scan_body(day(), "[a](https://example.com/p#part)").unwrap().url,
        "https://example.com/p"
    );
    assert_eq!(scan_body(day(), "[a](HTTP://example.com/P)").unwrap().url, "http://example.com/P");
}

#[test]
fn scan_body_finds_links_inside_other_nodes() {
    assert_eq!(scan_body(day(), "*so [a](https://a/) it is*").unwrap().url, "https://a/");
    assert_eq!(scan_body(day(), "- item **[b](https://b/)**").unwrap().url, "https://b/");
    assert_eq!(scan_body(day(), "> quoted [c](https://c/)").unwrap().url, "https://c/");
}

#[test]
fn scan_body_takes_the_first_link_in_document_order() {
    assert_eq!(
        scan_body(day(), "[a](https://a/) and *[b](https://b/)*").unwrap().url,
        "https://a/"
    );
    assert_eq!(
        scan_body(day(), "*[b](https://b/)* and [a](https://a/)").unwrap().url,
        "https://b/"
    );
}

#[test]
fn scan_body_passes_over_links_that_are_no_absolute_uri() {
    assert_eq!(
        scan_body(day(), "[rel](/just/a/path) then [abs](https://abs.example/)").unwrap().url,
        "https://abs.example/"
    );
    assert_eq!(
        scan_body(day(), "[bad](<not a uri>) then [abs](https://abs.example/)").unwrap().url,
        "https://abs.example/"
    );
    assert_eq!(
        scan_body(day(), "[host](example.com) then [abs](https://abs.example/)").unwrap().url,
        "https://abs.example/"
    );
    assert_eq!(
        scan_body(day(), "write to me@example.com or see [abs](https://abs.example/)").unwrap().url,
        "https://abs.example/"
    );
    assert_eq!(
        scan_body(day(), "<someone@example.org> wrote <https://abs.example/>").unwrap().url,
        "https://abs.example/"
    );
}

#[test]
fn scan_body_without_a_link_is_a_missing_link() {
    assert_eq!(
        scan_body(day(), "no link here"),
        Err(RoundupErrorKind::MissingLink(String::from("no link here")))
    );
    assert_eq!(scan_body(day(), ""), Err(RoundupErrorKind::MissingLink(String::new())));
    assert_eq!(
        scan_body(day(), "a bare example.com/path is no link"),
        Err(RoundupErrorKind::MissingLink(String::from("a bare example.com/path is no link")))
    );
    assert_eq!(
        scan_body(day(), "[rel](/only/relative)"),
        Err(RoundupErrorKind::MissingLink(String::from("[rel](/only/relative)")))
    );
    assert_eq!(
        scan_body(day(), "![image](https://img.example/i.png)"),
        Err(RoundupErrorKind::MissingLink(String::from("![image](https://img.example/i.png)")))
    );
}

#[test]
fn tree_of_keeps_links_and_children() {
    let tree = tree_of("a [b](https://b/) *c [d](/d)* <https://e/> https://f/").unwrap();
    assert_eq!(link_targets_of(&tree), vec!["https://b/", "/d", "https://e/", "https://f/"]);
    let empty = tree_of("").unwrap();
    assert_eq!(link_targets_of(&empty), Vec::<String>::new());
}

#[test]
fn link_targets_are_in_document_order() {
    let tree = MarkupNode::Other(vec![
        MarkupNode::Other(vec![link("a"), MarkupNode::Other(vec![link("b")])]),
        link("c"),
        MarkupNode::Other(vec![]),
        MarkupNode::Other(vec![MarkupNode::Other(vec![link("d")]), link("e")]),
    ]);
    assert_eq!(link_targets_of(&tree), vec!["a", "b", "c", "d", "e"]);
    assert_eq!(link_targets_of(&link("x")), vec!["x"]);
    assert_eq!(link_targets_of(&MarkupNode::Other(vec![])), Vec::<String>::new());
}

#[test]
fn find_url_takes_the_first_absolute_target() {
    let tree = MarkupNode::Other(vec![
        link("/relative"),
        MarkupNode::Other(vec![link("not a uri"), link("https://first.example")]),
        link("https://second.example/"),
    ]);
    assert_eq!(find_url(&tree), Some(String::from("https://first.example/")));
    assert_eq!(find_url(&MarkupNode::Other(vec![link("/a"), link("b c")])), None);
    assert_eq!(find_url(&MarkupNode::Other(vec![])), None);
    assert_eq!(find_url(&link("https://x/y?z")), Some(String::from("https://x/y?z")));
}

#[test]
fn accept_uri_takes_absolute_uris_alone() {
    assert_eq!(
        accept_uri(Some(UriParts { absolute: true, text: String::from("https://x/") })),
        Some(String::from("https://x/"))
    );
    assert_eq!(accept_uri(Some(UriParts { absolute: false, text: String::from("/x") })), None);
    assert_eq!(accept_uri(None), None);
}

#[test]
fn entry_for_makes_the_entry_or_the_missing_link() {
    assert_eq!(
        entry_for(day(), "body", Some(String::from("https://x/"))),
        Ok(ReadingListEntry {
            url: String::from("https://x/"),
            original_text: String::from("body"),
            body_text: String::from("body"),
            source_date: day(),
            read: ReadState::Unknown,
        })
    );
    assert_eq!(
        entry_for(day(), "body", None),
        Err(RoundupErrorKind::MissingLink(String::from("body")))
    );
}

#[test]
fn scan_tree_without_a_tree_is_a_markdown_error() {
    assert_eq!(
        scan_tree(day(), "body", None),
        Err(RoundupErrorKind::MarkdownError(String::from("body")))
    );
    let tree = MarkupNode::Other(vec![link("https://x/")]);
    assert_eq!(scan_tree(day(), "body", Some(&tree)).unwrap().url, "https://x/");
    let bare = MarkupNode::Other(vec![]);
    assert_eq!(
        scan_tree(day(), "body", Some(&bare)),
        Err(RoundupErrorKind::MissingLink(String::from("body")))
    );
}

#[test]
fn file_date_reads_the_stem() {
    assert_eq!(file_date(Some("2024-03-15")), Ok(Date { year: 2024, month: 3, day: 15 }));
    assert_eq!(file_date(Some("1999-12-31")), Ok(Date { year: 1999, month: 12, day: 31 }));
    assert_eq!(file_date(Some("2024-02-29")), Ok(Date { year: 2024, month: 2, day: 29 }));
    assert_eq!(file_date(Some("0001-01-01")), Ok(Date { year: 1, month: 1, day: 1 }));
    assert_eq!(file_date(Some("0000-01-01")), Ok(Date { year: 0, month: 1, day: 1 }));
    assert_eq!(file_date(Some("9999-12-31")), Ok(Date { year: 9999, month: 12, day: 31 }));
}

#[test]
fn file_date_refuses_what_is_no_date() {
    let refused = Err(RoundupErrorKind::InvalidFile(STEM_NOT_A_DATE));
    assert_eq!(file_date(Some("not-a-date")), refused);
    assert_eq!(file_date(Some("README")), refused);
    assert_eq!(file_date(Some("")), refused);
    assert_eq!(file_date(Some("2024-02-30")), refused);
    assert_eq!(file_date(Some("2024-13-01")), refused);
    assert_eq!(file_date(Some("2024-03-15 notes")), refused);
    assert_eq!(file_date(Some("2024-3-15")), refused);
    assert_eq!(file_date(Some("2024-03-5")), refused);
    assert_eq!(file_date(Some("+2024-03-15")), refused);
    assert_eq!(file_date(Some("12345-03-15")), refused);
    assert_eq!(file_date(Some(" 2024-03-15")), refused);
    assert_eq!(file_date(Some("2024-03-15 ")), refused);
    assert_eq!(file_date(Some("2024/03/15")), refused);
    assert_eq!(file_date(Some("2024-00-10")), refused);
    assert_eq!(file_date(Some("2023-02-29")), refused);
    assert_eq!(file_date(Some("２０２４-03-15")), refused);
    assert_eq!(file_date(None), Err(RoundupErrorKind::InvalidFile(STEM_NOT_DECODABLE)));
}

#[test]
fn the_reasons_are_worded() {
    assert_eq!(STEM_NOT_DECODABLE, "stem not decodable");
    assert_eq!(STEM_NOT_A_DATE, "stem is not YYYY-MM-DD");
}

#[test]
fn date_for_names_the_date_or_the_reason() {
    assert_eq!(date_for(Some("2024-03-15"), Some(day())), Ok(day()));
    assert_eq!(date_for(Some("2024-3-15"), Some(day())), Err(RoundupErrorKind::InvalidFile(STEM_NOT_A_DATE)));
    assert_eq!(date_for(Some("2024-03-15"), None), Err(RoundupErrorKind::InvalidFile(STEM_NOT_A_DATE)));
    assert_eq!(date_for(Some("x"), None), Err(RoundupErrorKind::InvalidFile(STEM_NOT_A_DATE)));
    assert_eq!(date_for(None, None), Err(RoundupErrorKind::InvalidFile(STEM_NOT_DECODABLE)));
    assert_eq!(date_for(None, Some(day())), Err(RoundupErrorKind::InvalidFile(STEM_NOT_DECODABLE)));
}

#[test]
fn a_single_tagged_line_gives_one_entry() {
    let line = "- #reading check out [Foo](https://foo.example/)";
    let entries = scan_file(Some("2024-03-15"), &lines(&[line]), None).unwrap();
    assert_eq!(
        entries,
        vec![ReadingListEntry {
            url: String::from("https://foo.example/"),
            original_text: String::from(line),
            body_text: String::from("check out [Foo](https://foo.example/)"),
            source_date: Date { year: 2024, month: 3, day: 15 },
            read: ReadState::Unknown,
        }]
    );
}

#[test]
fn a_file_named_not_a_date_is_invalid() {
    let text = lines(&["#read [a](https://a/)"]);
    assert_eq!(
        scan_file(Some("not-a-date"), &text, None),
        Err(RoundupErrorKind::InvalidFile(STEM_NOT_A_DATE))
    );
}

#[test]
fn a_tagged_line_without_a_link_fails_the_file() {
    let text = lines(&["#read [a](https://a/)", "#tbr nothing to see", "#read [b](https://b/)"]);
    assert_eq!(
        scan_file(Some("2024-03-15"), &text, None),
        Err(RoundupErrorKind::MissingLink(String::from("nothing to see")))
    );
}

#[test]
fn scan_lines_keeps_line_order_and_skips_other_lines() {
    let text = lines(&[
        "# Friday",
        "#read: [a](https://a/)",
        "",
        "nothing tagged [x](https://x/)",
        "later #tbr <https://b/> soon",
        "- #reading [c](https://c/)",
    ]);
    let entries = scan_lines(day(), &text, None).unwrap();
    let urls: Vec<&str> = entries.iter().map(|e| e.url.as_str()).collect();
    assert_eq!(urls, vec!["https://a/", "https://b/", "https://c/"]);
    let states: Vec<ReadState> = entries.iter().map(|e| e.read).collect();
    assert_eq!(states, vec![ReadState::Read, ReadState::ToBeRead, ReadState::Unknown]);
    assert_eq!(entries[1].original_text, "later #tbr <https://b/> soon");
    assert_eq!(entries[1].body_text, "<https://b/> soon");
    assert!(entries.iter().all(|e| e.source_date == day()));
}

#[test]
fn scan_lines_of_nothing_gives_nothing() {
    assert_eq!(scan_lines(day(), &Vec::new(), None), Ok(Vec::new()));
    assert_eq!(scan_lines(day(), &lines(&["a", "b"]), None), Ok(Vec::new()));
}

#[test]
fn a_failure_to_read_fails_the_file() {
    let text = lines(&["#read [a](https://a/)"]);
    assert_eq!(
        scan_lines(day(), &text, Some(String::from("stream did not contain valid UTF-8"))),
        Err(RoundupErrorKind::ScanIOError(String::from("stream did not contain valid UTF-8")))
    );
    assert_eq!(
        scan_lines(day(), &Vec::new(), Some(String::from("permission denied"))),
        Err(RoundupErrorKind::ScanIOError(String::from("permission denied")))
    );
}

#[test]
fn the_first_failure_is_the_files_error() {
    let text = lines(&["#read none", "#tbr none either"]);
    assert_eq!(
        scan_lines(day(), &text, Some(String::from("broken"))),
        Err(RoundupErrorKind::MissingLink(String::from("none")))
    );
}

#[test]
fn a_date_has_four_two_and_two_digits() {
    assert!(is_date_form("2024-03-15"));
    assert!(is_date_form("0000-00-00"));
    assert!(is_date_form("9999-99-99"));
    assert!(!is_date_form(""));
    assert!(!is_date_form("2024-03-1"));
    assert!(!is_date_form("2024-03-155"));
    assert!(!is_date_form("2024_03_15"));
    assert!(!is_date_form("2024-03_15"));
    assert!(!is_date_form("202a-03-15"));
    assert!(!is_date_form("2024-0b-15"));
    assert!(!is_date_form("2024-03-1c"));
    assert!(!is_date_form("-024-03-15"));
    assert!(!is_date_form("2024-03-15\n"));
    assert!(!is_date_form("2024-03-1/"));
    assert!(!is_date_form("2024-03-1:"));
}

#[test]
fn the_text_of_a_date_is_read_back_as_that_date() {
    for (year, month, day) in [(2024, 3, 15), (0, 1, 1), (9999, 12, 31), (1970, 1, 1), (2000, 2, 29)] {
        let date = Date::new(year, month, day).unwrap();
        assert_eq!(file_date(Some(&date.text())), Ok(date));
    }
}
