//! The body scanner and the file scanner: from the tagged lines of a dated
//! note to reading-list entries.

use crate::date::Date;
use crate::entry::{EntryModel, ReadState, ReadingListEntry};
use crate::error::{KindModel, RoundupErrorKind, STEM_NOT_A_DATE, STEM_NOT_DECODABLE};
use crate::markup::{link_targets, link_targets_of, markup_of, texts, tree_of, MarkupNode};
use crate::tagline::{match_tag_line, tag_line};
use crate::text::chars_of;
use chrono::Datelike;
use vstd::prelude::*;

verus! {

/// What `http::Uri` makes of a link target that it accepts: whether it has
/// a scheme, and its canonical text.
#[derive(Debug, Clone, PartialEq, Eq)]
pub struct UriParts {
    pub absolute: bool,
    pub text: String,
}

/// What `http::Uri` makes of a link target: `None` where it refuses the
/// target, else whether the URI has a scheme, and the text that the URI
/// displays as.
pub uninterp spec fn uri_parts(target: Seq<char>) -> Option<(bool, Seq<char>)>;

/// The date that `chrono::NaiveDate` reads from a text, or `None` where it
/// reads none.
pub uninterp spec fn date_of_text(text: Seq<char>) -> Option<Date>;

/// Parses a link target with `http::Uri::from_str`, and reads the result
/// through `Uri::scheme` and its `Display`.
#[verifier::external_body]
fn parse_uri(target: &str) -> (r: Option<UriParts>)
    ensures
        match r {
            Some(parts) => uri_parts(target@) == Some((parts.absolute, parts.text@)),
            None => uri_parts(target@) is None,
        },
{
    match target.parse::<http::Uri>() {
        Ok(uri) => Some(UriParts { absolute: uri.scheme().is_some(), text: uri.to_string() }),
        Err(_) => None,
    }
}

/// Parses a date with `chrono::NaiveDate::from_str`. A date that chrono
/// gives is a day of the calendar.
#[verifier::external_body]
fn parse_date(text: &str) -> (r: Option<Date>)
    ensures
        r == date_of_text(text@),
        r matches Some(date) ==> date.is_calendar_date(),
{
    match text.parse::<chrono::NaiveDate>() {
        Ok(date) => Some(Date { year: date.year(), month: date.month(), day: date.day() }),
        Err(_) => None,
    }
}

/// The link that a parsed target gives an entry: the canonical text of an
/// absolute URI, and nothing else.
pub open spec fn accepted(parts: Option<(bool, Seq<char>)>) -> Option<Seq<char>> {
    match parts {
        Some((true, text)) => Some(text),
        _ => None,
    }
}

/// The first of `targets`, from index `from` on, that is accepted as a link:
/// its canonical text.
pub open spec fn first_url(targets: Seq<Seq<char>>, from: int) -> Option<Seq<char>>
    decreases targets.len() - from,
{
    if 0 <= from < targets.len() {
        match accepted(uri_parts(targets[from])) {
            Some(url) => Some(url),
            None => first_url(targets, from + 1),
        }
    } else {
        None
    }
}

/// The entry that a body gives, found a link or not.
pub open spec fn entry_of(date: Date, body: Seq<char>, url: Option<Seq<char>>) -> Result<
    EntryModel,
    KindModel,
> {
    match url {
        Some(url) => Ok(
            EntryModel {
                url,
                original_text: body,
                body_text: body,
                source_date: date,
                read: ReadState::Unknown,
            },
        ),
        None => Err(KindModel::MissingLink(body)),
    }
}

/// The entry that a body gives, parsed as markup or not: the first link of
/// the tree in document order that is an absolute URI is the entry's link.
pub open spec fn scanned_tree(date: Date, body: Seq<char>, tree: Option<MarkupNode>) -> Result<
    EntryModel,
    KindModel,
> {
    match tree {
        Some(tree) => entry_of(date, body, first_url(link_targets(tree), 0)),
        None => Err(KindModel::MarkdownError(body)),
    }
}

/// The entry that a body gives.
pub open spec fn scanned_body(date: Date, body: Seq<char>) -> Result<EntryModel, KindModel> {
    scanned_tree(date, body, markup_of(body))
}

/// What a line gives: nothing where it is no tag line, else the entry of its
/// body, with the whole line as the original text and the read state of the
/// tag, or the error of its body.
pub open spec fn scanned_line(date: Date, line: Seq<char>) -> Option<
    Result<EntryModel, KindModel>,
> {
    match tag_line(line) {
        None => None,
        Some((tag, body)) => Some(
            match scanned_body(date, body) {
                Ok(entry) => Ok(
                    EntryModel { original_text: line, read: tag.read_state(), ..entry },
                ),
                Err(kind) => Err(kind),
            },
        ),
    }
}

/// What the first `n` lines give: the entries of the tag lines in line
/// order, or the error of the first line that fails.
pub open spec fn scanned_lines(date: Date, lines: Seq<Seq<char>>, n: int) -> Result<
    Seq<EntryModel>,
    KindModel,
>
    decreases n,
{
    if n <= 0 {
        Ok(Seq::empty())
    } else {
        match scanned_lines(date, lines, n - 1) {
            Err(kind) => Err(kind),
            Ok(entries) => match scanned_line(date, lines[n - 1]) {
                None => Ok(entries),
                Some(Ok(entry)) => Ok(entries.push(entry)),
                Some(Err(kind)) => Err(kind),
            },
        }
    }
}

/// What a file gives that was read as far as `lines`, where reading stopped
/// on `failure` if that is given: the error of the first line that fails,
/// else the failure to read, else the entries.
pub open spec fn scanned_file(date: Date, lines: Seq<Seq<char>>, failure: Option<Seq<char>>)
    -> Result<Seq<EntryModel>, KindModel> {
    match scanned_lines(date, lines, lines.len() as int) {
        Err(kind) => Err(kind),
        Ok(entries) => match failure {
            Some(cause) => Err(KindModel::ScanIOError(cause)),
            None => Ok(entries),
        },
    }
}

/// Whether the character is a decimal digit.
pub open spec fn is_digit(c: char) -> bool {
    '0' <= c && c <= '9'
}

/// Whether a text has the form of a date: four digits, a hyphen, two
/// digits, a hyphen, two digits.
pub open spec fn has_date_form(text: Seq<char>) -> bool {
    &&& text.len() == 10
    &&& is_digit(text[0]) && is_digit(text[1]) && is_digit(text[2]) && is_digit(text[3])
    &&& text[4] == '-'
    &&& is_digit(text[5]) && is_digit(text[6])
    &&& text[7] == '-'
    &&& is_digit(text[8]) && is_digit(text[9])
}

/// The date that a file's name stem gives, where `parsed` is what was read
/// from a stem that has the form of a date.
pub open spec fn dated(stem: Option<Seq<char>>, parsed: Option<Date>) -> Result<Date, KindModel> {
    match stem {
        None => Err(KindModel::InvalidFile(STEM_NOT_DECODABLE@)),
        Some(text) => match parsed {
            Some(date) if has_date_form(text) => Ok(date),
            _ => Err(KindModel::InvalidFile(STEM_NOT_A_DATE@)),
        },
    }
}

/// The date that a file's name stem gives: the stem must be text, have the
/// form of a date, and name a day.
pub open spec fn stem_date(stem: Option<Seq<char>>) -> Result<Date, KindModel> {
    match stem {
        None => dated(stem, None),
        Some(text) => dated(stem, date_of_text(text)),
    }
}

/// What a result holds, entry or error.
pub open spec fn entry_outcome(r: Result<ReadingListEntry, RoundupErrorKind>) -> Result<
    EntryModel,
    KindModel,
> {
    match r {
        Ok(entry) => Ok(entry@),
        Err(kind) => Err(kind@),
    }
}

/// What a result holds, entries or error.
pub open spec fn entries_outcome(r: Result<Vec<ReadingListEntry>, RoundupErrorKind>) -> Result<
    Seq<EntryModel>,
    KindModel,
> {
    match r {
        Ok(entries) => Ok(crate::catalog::entry_models(entries@)),
        Err(kind) => Err(kind@),
    }
}

/// What a result holds, date or error.
pub open spec fn date_outcome(r: Result<Date, RoundupErrorKind>) -> Result<Date, KindModel> {
    match r {
        Ok(date) => Ok(date),
        Err(kind) => Err(kind@),
    }
}

/// The link that a parsed target gives an entry: the canonical text of an
/// absolute URI, and nothing else.
pub fn accept_uri(parts: Option<UriParts>) -> (r: Option<String>)
    ensures
        match parts {
            Some(p) => match r {
                Some(url) => accepted(Some((p.absolute, p.text@))) == Some(url@),
                None => accepted(Some((p.absolute, p.text@))) is None,
            },
            None => r is None,
        },
{
    match parts {
        Some(p) => if p.absolute {
            Some(p.text)
        } else {
            None
        },
        None => None,
    }
}

/// The link of a tree: the first link target in document order that is an
/// absolute URI, in its canonical text.
pub fn find_url(node: &MarkupNode) -> (r: Option<String>)
    ensures
        match r {
            Some(url) => first_url(link_targets(*node), 0) == Some(url@),
            None => first_url(link_targets(*node), 0) is None,
        },
{
    let targets = link_targets_of(node);
    let mut i: usize = 0;
    while i < targets.len()
        invariant
            i <= targets.len(),
            texts(targets@) == link_targets(*node),
            first_url(link_targets(*node), i as int) == first_url(link_targets(*node), 0),
        decreases targets.len() - i,
    {
        proof {
            assert(texts(targets@)[i as int] == targets@[i as int]@);
        }
        match accept_uri(parse_uri(targets[i].as_str())) {
            Some(url) => {
                return Some(url);
            },
            None => {},
        }
        i += 1;
    }
    None
}

/// The entry that a body gives, found a link or not: the body is both the
/// original text and the body text, the read state is unknown.
pub fn entry_for(date: Date, body: &str, url: Option<String>) -> (r: Result<
    ReadingListEntry,
    RoundupErrorKind,
>)
    ensures
        entry_outcome(r) == entry_of(
            date,
            body@,
            match url {
                Some(u) => Some(u@),
                None => None,
            },
        ),
{
    match url {
        Some(url) => Ok(
            ReadingListEntry {
                url,
                original_text: body.to_owned(),
                body_text: body.to_owned(),
                source_date: date,
                read: ReadState::Unknown,
            },
        ),
        None => Err(RoundupErrorKind::MissingLink(body.to_owned())),
    }
}

/// The entry that a body gives, parsed as markup or not.
pub fn scan_tree(date: Date, body: &str, tree: Option<&MarkupNode>) -> (r: Result<
    ReadingListEntry,
    RoundupErrorKind,
>)
    ensures
        entry_outcome(r) == scanned_tree(
            date,
            body@,
            match tree {
                Some(t) => Some(*t),
                None => None,
            },
        ),
{
    match tree {
        Some(tree) => entry_for(date, body, find_url(tree)),
        None => Err(RoundupErrorKind::MarkdownError(body.to_owned())),
    }
}

/// Scans a body for its link: parses the body as markup with autolinks,
/// and makes an entry of the first link in document order that is an
/// absolute URI.
pub fn scan_body(date: Date, body: &str) -> (r: Result<ReadingListEntry, RoundupErrorKind>)
    ensures
        entry_outcome(r) == scanned_body(date, body@),
{
    let tree = tree_of(body);
    scan_tree(date, body, tree.as_ref())
}

/// Whether a text has the form of a date.
pub fn is_date_form(text: &str) -> (b: bool)
    ensures
        b == has_date_form(text@),
{
    let chars = chars_of(text);
    chars.len() == 10 && is_digit_char(chars[0]) && is_digit_char(chars[1]) && is_digit_char(
        chars[2],
    ) && is_digit_char(chars[3]) && chars[4] == '-' && is_digit_char(chars[5]) && is_digit_char(
        chars[6],
    ) && chars[7] == '-' && is_digit_char(chars[8]) && is_digit_char(chars[9])
}

fn is_digit_char(c: char) -> (b: bool)
    ensures
        b == is_digit(c),
{
    '0' <= c && c <= '9'
}

/// The date that a file's name stem gives, where `parsed` is what was read
/// from a stem that has the form of a date.
pub fn date_for(stem: Option<&str>, parsed: Option<Date>) -> (r: Result<Date, RoundupErrorKind>)
    ensures
        date_outcome(r) == dated(
            match stem {
                Some(s) => Some(s@),
                None => None,
            },
            parsed,
        ),
{
    match stem {
        None => Err(RoundupErrorKind::InvalidFile(STEM_NOT_DECODABLE)),
        Some(text) => match parsed {
            Some(date) => if is_date_form(text) {
                Ok(date)
            } else {
                Err(RoundupErrorKind::InvalidFile(STEM_NOT_A_DATE))
            },
            None => Err(RoundupErrorKind::InvalidFile(STEM_NOT_A_DATE)),
        },
    }
}

/// The date that a file's name stem gives: the stem must be text, have the
/// form of a date, and name a day.
pub fn file_date(stem: Option<&str>) -> (r: Result<Date, RoundupErrorKind>)
    ensures
        date_outcome(r) == stem_date(
            match stem {
                Some(s) => Some(s@),
                None => None,
            },
        ),
        r matches Ok(date) ==> date.is_calendar_date(),
{
    match stem {
        None => date_for(stem, None),
        Some(text) => date_for(stem, parse_date(text)),
    }
}

/// Scans the lines of a note of `date`: each tag line gives an entry, with
/// the line as its original text and the read state of its tag. The first
/// line that fails ends the scan with its error; so does `failure`, the
/// cause for which reading stopped behind `lines`, if no line failed.
pub fn scan_lines(date: Date, lines: &Vec<String>, failure: Option<String>) -> (r: Result<
    Vec<ReadingListEntry>,
    RoundupErrorKind,
>)
    ensures
        entries_outcome(r) == scanned_file(
            date,
            texts(lines@),
            match failure {
                Some(cause) => Some(cause@),
                None => None,
            },
        ),
{
    let mut entries: Vec<ReadingListEntry> = Vec::new();
    let mut i: usize = 0;
    proof {
        assert(crate::catalog::entry_models(entries@) =~= Seq::empty());
    }
    while i < lines.len()
        invariant
            i <= lines.len(),
            scanned_lines(date, texts(lines@), i as int) == Ok::<Seq<EntryModel>, KindModel>(
                crate::catalog::entry_models(entries@),
            ),
        decreases lines.len() - i,
    {
        let line = &lines[i];
        proof {
            assert(texts(lines@)[i as int] == line@);
        }
        match match_tag_line(line.as_str()) {
            Some(found) => {
                match scan_body(date, found.body.as_str()) {
                    Ok(scanned) => {
                        let ghost before = crate::catalog::entry_models(entries@);
                        let entry = ReadingListEntry {
                            url: scanned.url,
                            original_text: line.clone(),
                            body_text: scanned.body_text,
                            source_date: scanned.source_date,
                            read: found.tag.state(),
                        };
                        entries.push(entry);
                        proof {
                            assert(crate::catalog::entry_models(entries@) =~= before.push(entry@));
                        }
                    },
                    Err(kind) => {
                        proof {
                            lemma_scan_error_stays(
                                date,
                                texts(lines@),
                                i as int + 1,
                                lines.len() as int,
                            );
                        }
                        return Err(kind);
                    },
                }
            },
            None => {},
        }
        i += 1;
    }
    match failure {
        Some(cause) => Err(RoundupErrorKind::ScanIOError(cause)),
        None => Ok(entries),
    }
}

/// Scans a note: the name stem gives the date of every entry, the lines
/// give the entries. A stem that is no date fails the file before any line
/// is looked at.
pub fn scan_file(stem: Option<&str>, lines: &Vec<String>, failure: Option<String>) -> (r: Result<
    Vec<ReadingListEntry>,
    RoundupErrorKind,
>)
    ensures
        entries_outcome(r) == (match stem_date(
            match stem {
                Some(s) => Some(s@),
                None => None,
            },
        ) {
            Ok(date) => scanned_file(
                date,
                texts(lines@),
                match failure {
                    Some(cause) => Some(cause@),
                    None => None,
                },
            ),
            Err(kind) => Err(kind),
        }),
{
    match file_date(stem) {
        Ok(date) => scan_lines(date, lines, failure),
        Err(kind) => Err(kind),
    }
}

/// An error among the first lines is the error of the file.
pub proof fn lemma_scan_error_stays(date: Date, lines: Seq<Seq<char>>, n: int, m: int)
    requires
        0 <= n <= m,
        scanned_lines(date, lines, n) is Err,
    ensures
        scanned_lines(date, lines, m) == scanned_lines(date, lines, n),
    decreases m - n,
{
    if n < m {
        lemma_scan_error_stays(date, lines, n, m - 1);
    }
}

/// A tag line that gives no entry fails its file as a whole: whatever the
/// other lines hold, the file gives an error and no entries.
pub proof fn law_failing_line_fails_the_file(
    date: Date,
    lines: Seq<Seq<char>>,
    failure: Option<Seq<char>>,
    k: int,
)
    requires
        0 <= k < lines.len(),
        scanned_line(date, lines[k]) matches Some(Err(_)),
    ensures
        scanned_file(date, lines, failure) is Err,
{
    assert(scanned_lines(date, lines, k + 1) is Err);
    lemma_scan_error_stays(date, lines, k + 1, lines.len() as int);
}

/// Whether an entry was taken from a line of a note of `date`: the line
/// is a tag line and the entry's original text, its body is the entry's
/// body text, and its tag gives the entry's read state.
pub open spec fn taken_from(entry: EntryModel, date: Date, line: Seq<char>) -> bool {
    match tag_line(line) {
        Some((tag, body)) => {
            &&& entry.source_date == date
            &&& entry.original_text == line
            &&& entry.body_text == body
            &&& entry.read == tag.read_state()
        },
        None => false,
    }
}

/// Whether an entry was taken from one of the first `n` lines.
pub open spec fn taken_from_lines(entry: EntryModel, date: Date, lines: Seq<Seq<char>>, n: int)
    -> bool {
    exists|k: int| 0 <= k < n && k < lines.len() && #[trigger] taken_from(entry, date, lines[k])
}

/// Every entry of the first `n` lines was taken from one of those lines.
pub proof fn law_entries_come_from_tag_lines(date: Date, lines: Seq<Seq<char>>, n: int)
    requires
        0 <= n <= lines.len(),
        scanned_lines(date, lines, n) is Ok,
    ensures
        forall|i: int|
            0 <= i < (scanned_lines(date, lines, n)->Ok_0).len() ==> taken_from_lines(
                #[trigger] (scanned_lines(date, lines, n)->Ok_0)[i],
                date,
                lines,
                n,
            ),
    decreases n,
{
    if n > 0 {
        assert(scanned_lines(date, lines, n - 1) is Ok);
        law_entries_come_from_tag_lines(date, lines, n - 1);
        let earlier = scanned_lines(date, lines, n - 1)->Ok_0;
        let all = scanned_lines(date, lines, n)->Ok_0;
        assert forall|i: int| 0 <= i < all.len() implies taken_from_lines(
            #[trigger] all[i],
            date,
            lines,
            n,
        ) by {
            if i < earlier.len() {
                assert(all[i] == earlier[i]);
                assert(taken_from_lines(earlier[i], date, lines, n - 1));
                let k = choose|k: int|
                    0 <= k < n - 1 && k < lines.len()
                        && #[trigger] taken_from(earlier[i], date, lines[k]);
                assert(taken_from(all[i], date, lines[k]));
            } else {
                assert(taken_from(all[i], date, lines[n - 1]));
            }
        }
    }
}

} // verus!
