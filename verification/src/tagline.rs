//! Tag lines: the lines of a note that offer an entry.
//!
//! The grammar of a tag line is the pattern
//! `^.*#(reading|read|tbr)[ :]*(.*)$`, matched as a regular expression
//! engine matches it that tries the alternatives in order and lets each
//! repetition take as much as it can; a dot stands for any character but a
//! line feed. So a line is a tag line where it holds no line feed and one of
//! the tags `#reading`, `#read` or `#tbr` stands in it. The last place
//! where a tag stands decides, since the text ahead of the tag takes as
//! much as it can; there `#reading` is tried before `#read`, so `#readings`
//! is the tag `#reading` with the body `s`. After the tag, spaces and colons
//! are passed over, and the rest of the line is the body.

use crate::entry::ReadState;
use crate::text::chars_of;
use vstd::prelude::*;
use vstd::string::StrSliceExecFns;

verus! {

/// The tag of a tag line.
#[derive(Clone, Copy, Debug, PartialEq, Eq, Structural)]
pub enum Tag {
    /// `#reading`
    Reading,
    /// `#read`
    Read,
    /// `#tbr`
    Tbr,
}

impl Tag {
    /// The tag as it stands in a line.
    pub open spec fn word(self) -> Seq<char> {
        match self {
            Tag::Reading => seq!['#', 'r', 'e', 'a', 'd', 'i', 'n', 'g'],
            Tag::Read => seq!['#', 'r', 'e', 'a', 'd'],
            Tag::Tbr => seq!['#', 't', 'b', 'r'],
        }
    }

    /// The read state that the tag gives an entry.
    pub open spec fn read_state(self) -> ReadState {
        match self {
            Tag::Reading => ReadState::Unknown,
            Tag::Read => ReadState::Read,
            Tag::Tbr => ReadState::ToBeRead,
        }
    }

    /// The read state that the tag gives an entry.
    pub fn state(&self) -> (r: ReadState)
        ensures
            r == self.read_state(),
    {
        match self {
            Tag::Reading => ReadState::Unknown,
            Tag::Read => ReadState::Read,
            Tag::Tbr => ReadState::ToBeRead,
        }
    }
}

/// A tag line taken apart.
#[derive(Debug, Clone, PartialEq, Eq)]
pub struct TagMatch {
    pub tag: Tag,
    pub body: String,
}

/// Whether `word` stands in `line` at index `at`.
pub open spec fn stands_at(line: Seq<char>, at: int, word: Seq<char>) -> bool {
    0 <= at && at + word.len() <= line.len() && line.subrange(at, at + word.len()) == word
}

/// The tag that stands in `line` at index `at`, the longer one first.
pub open spec fn tag_at(line: Seq<char>, at: int) -> Option<Tag> {
    if stands_at(line, at, Tag::Reading.word()) {
        Some(Tag::Reading)
    } else if stands_at(line, at, Tag::Read.word()) {
        Some(Tag::Read)
    } else if stands_at(line, at, Tag::Tbr.word()) {
        Some(Tag::Tbr)
    } else {
        None
    }
}

/// The last index below `upto` at which a tag stands.
pub open spec fn last_tag(line: Seq<char>, upto: int) -> Option<int>
    decreases upto,
{
    if upto <= 0 {
        None
    } else if tag_at(line, upto - 1) is Some {
        Some(upto - 1)
    } else {
        last_tag(line, upto - 1)
    }
}

/// Whether the character is passed over between a tag and the body.
pub open spec fn is_filler(c: char) -> bool {
    c == ' ' || c == ':'
}

/// The first index from `from` on that holds no filler; the length where
/// there is none.
pub open spec fn body_start(line: Seq<char>, from: int) -> int
    decreases line.len() - from,
{
    if 0 <= from < line.len() && is_filler(line[from]) {
        body_start(line, from + 1)
    } else {
        from
    }
}

/// The tag and the body of a tag line; `None` for any other line.
pub open spec fn tag_line(line: Seq<char>) -> Option<(Tag, Seq<char>)> {
    if line.contains('\n') {
        None
    } else {
        match last_tag(line, line.len() as int) {
            None => None,
            Some(at) => {
                let tag = tag_at(line, at)->0;
                Some((tag, line.skip(body_start(line, at + tag.word().len()))))
            },
        }
    }
}

/// The last tag stands where a tag stands, and none stands behind it.
pub proof fn lemma_last_tag(line: Seq<char>, upto: int)
    ensures
        match last_tag(line, upto) {
            Some(at) => {
                &&& 0 <= at < upto
                &&& tag_at(line, at) is Some
                &&& forall|later: int| at < later < upto ==> tag_at(line, later) is None
            },
            None => forall|at: int| 0 <= at < upto ==> tag_at(line, at) is None,
        },
    decreases upto,
{
    if upto > 0 && tag_at(line, upto - 1) is None {
        lemma_last_tag(line, upto - 1);
    }
}

/// The body starts at or behind `from`, within the line; fillers alone stand
/// between, and no filler stands at the start of the body.
pub proof fn lemma_body_start(line: Seq<char>, from: int)
    requires
        0 <= from <= line.len(),
    ensures
        from <= body_start(line, from) <= line.len(),
        forall|k: int| from <= k < body_start(line, from) ==> is_filler(#[trigger] line[k]),
        body_start(line, from) < line.len() ==> !is_filler(line[body_start(line, from)]),
    decreases line.len() - from,
{
    if from < line.len() && is_filler(line[from]) {
        lemma_body_start(line, from + 1);
    }
}

/// A tag line is some text, the tag, fillers and the body, in that order.
/// The line holds no line feed; the tag is the one that stands behind the
/// text, the longer one first; no tag stands further behind in the line;
/// and the body starts with no filler. The result is the text ahead of the
/// tag and the fillers.
pub proof fn law_tag_line_shape(line: Seq<char>) -> (parts: (Seq<char>, Seq<char>))
    requires
        tag_line(line) is Some,
    ensures
        !line.contains('\n'),
        line == parts.0 + (tag_line(line)->0).0.word() + parts.1 + (tag_line(line)->0).1,
        tag_at(line, parts.0.len() as int) == Some((tag_line(line)->0).0),
        forall|later: int| parts.0.len() < later ==> tag_at(line, later) is None,
        forall|k: int| 0 <= k < parts.1.len() ==> is_filler(#[trigger] parts.1[k]),
        (tag_line(line)->0).1.len() > 0 ==> !is_filler((tag_line(line)->0).1[0]),
{
    let at = last_tag(line, line.len() as int)->0;
    lemma_last_tag(line, line.len() as int);
    let (tag, body) = tag_line(line)->0;
    let after_tag = at + tag.word().len();
    lemma_body_start(line, after_tag);
    let start = body_start(line, after_tag);
    let ahead = line.take(at);
    let fillers = line.subrange(after_tag, start);
    assert(line =~= ahead + tag.word() + fillers + body);
    assert forall|k: int| 0 <= k < fillers.len() implies is_filler(#[trigger] fillers[k]) by {
        assert(fillers[k] == line[after_tag + k]);
    }
    (ahead, fillers)
}

/// A line without a tag, or with a line feed, is no tag line; any other
/// line is one.
pub proof fn law_tag_lines(line: Seq<char>)
    ensures
        tag_line(line) is Some <==> !line.contains('\n') && exists|at: int|
            0 <= at < line.len() && #[trigger] tag_at(line, at) is Some,
{
    lemma_last_tag(line, line.len() as int);
}

/// The tag that stands in `chars` at index `at`.
fn find_tag_at(chars: &Vec<char>, at: usize) -> (r: Option<Tag>)
    requires
        at < chars.len(),
    ensures
        r == tag_at(chars@, at as int),
{
    let n = chars.len();
    let line = Ghost(chars@);
    if chars[at] != '#' {
        proof {
            assert(Tag::Reading.word()[0] == '#' && Tag::Read.word()[0] == '#' && Tag::Tbr.word()[0]
                == '#');
            if stands_at(line@, at as int, Tag::Reading.word()) {
                assert(line@.subrange(at as int, at + 8)[0] == '#');
            }
            if stands_at(line@, at as int, Tag::Read.word()) {
                assert(line@.subrange(at as int, at + 5)[0] == '#');
            }
            if stands_at(line@, at as int, Tag::Tbr.word()) {
                assert(line@.subrange(at as int, at + 4)[0] == '#');
            }
        }
        return None;
    }
    let read = n - at >= 5 && chars[at + 1] == 'r' && chars[at + 2] == 'e' && chars[at + 3] == 'a'
        && chars[at + 4] == 'd';
    proof {
        if read {
            assert(line@.subrange(at as int, at + 5) =~= Tag::Read.word());
        } else if stands_at(line@, at as int, Tag::Read.word()) {
            let part = line@.subrange(at as int, at + 5);
            assert(part[1] == 'r' && part[2] == 'e' && part[3] == 'a' && part[4] == 'd');
        }
        if stands_at(line@, at as int, Tag::Reading.word()) {
            let part = line@.subrange(at as int, at + 8);
            assert(part[1] == 'r' && part[2] == 'e' && part[3] == 'a' && part[4] == 'd');
            assert(part[5] == 'i' && part[6] == 'n' && part[7] == 'g');
        }
    }
    if read {
        let reading = n - at >= 8 && chars[at + 5] == 'i' && chars[at + 6] == 'n' && chars[at + 7]
            == 'g';
        proof {
            if reading {
                assert(line@.subrange(at as int, at + 8) =~= Tag::Reading.word());
            }
        }
        if reading {
            Some(Tag::Reading)
        } else {
            Some(Tag::Read)
        }
    } else {
        let tbr = n - at >= 4 && chars[at + 1] == 't' && chars[at + 2] == 'b' && chars[at + 3]
            == 'r';
        proof {
            if tbr {
                assert(line@.subrange(at as int, at + 4) =~= Tag::Tbr.word());
            } else if stands_at(line@, at as int, Tag::Tbr.word()) {
                let part = line@.subrange(at as int, at + 4);
                assert(part[1] == 't' && part[2] == 'b' && part[3] == 'r');
            }
        }
        if tbr {
            Some(Tag::Tbr)
        } else {
            None
        }
    }
}

/// Takes a line apart: its tag and its body where it is a tag line.
pub fn match_tag_line(line: &str) -> (r: Option<TagMatch>)
    ensures
        match r {
            Some(found) => tag_line(line@) == Some((found.tag, found.body@)),
            None => tag_line(line@) is None,
        },
{
    let chars = chars_of(line);
    let n = chars.len();
    let mut i: usize = 0;
    while i < n
        invariant
            i <= n,
            n == chars.len(),
            chars@ == line@,
            forall|k: int| 0 <= k < i ==> chars@[k] != '\n',
        decreases n - i,
    {
        if chars[i] == '\n' {
            proof {
                assert(line@[i as int] == '\n');
            }
            return None;
        }
        i += 1;
    }
    let mut upto: usize = n;
    while upto > 0
        invariant
            upto <= n,
            n == chars.len(),
            chars@ == line@,
            !line@.contains('\n'),
            last_tag(chars@, upto as int) == last_tag(chars@, n as int),
        decreases upto,
    {
        let at = upto - 1;
        match find_tag_at(&chars, at) {
            Some(tag) => {
                let mut start: usize = at + match tag {
                    Tag::Reading => 8,
                    Tag::Read => 5,
                    Tag::Tbr => 4,
                };
                proof {
                    assert(start == at + tag.word().len());
                }
                let ghost after_tag = start as int;
                while start < n && (chars[start] == ' ' || chars[start] == ':')
                    invariant
                        after_tag <= start <= n,
                        n == chars.len(),
                        chars@ == line@,
                        body_start(chars@, start as int) == body_start(chars@, after_tag),
                    decreases n - start,
                {
                    start += 1;
                }
                let body = line.substring_char(start, n);
                proof {
                    assert(chars@.skip(start as int) =~= chars@.subrange(start as int, n as int));
                }
                return Some(TagMatch { tag, body: body.to_owned() });
            },
            None => {},
        }
        upto = at;
    }
    None
}

} // verus!
