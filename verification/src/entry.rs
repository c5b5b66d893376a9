//! Reading-list entries.

use crate::date::{date_text, Date};
use vstd::prelude::*;
use vstd::string::StringExecFns;

verus! {

/// Whether an entry has been read.
#[derive(Clone, Copy, Debug, PartialEq, Eq, Structural)]
pub enum ReadState {
    /// Nothing is known.
    Unknown,
    /// Marked to be read.
    ToBeRead,
    /// Marked as read.
    Read,
}

impl ReadState {
    /// The state that a nullable flag stands for: no flag is unknown, `false`
    /// is to be read, `true` is read.
    pub open spec fn of_flag(flag: Option<bool>) -> ReadState {
        match flag {
            None => ReadState::Unknown,
            Some(false) => ReadState::ToBeRead,
            Some(true) => ReadState::Read,
        }
    }

    /// The nullable flag that stands for the state.
    pub open spec fn flag(self) -> Option<bool> {
        match self {
            ReadState::Unknown => None,
            ReadState::ToBeRead => Some(false),
            ReadState::Read => Some(true),
        }
    }

    /// The state that a nullable flag stands for.
    pub fn from_flag(flag: Option<bool>) -> (r: ReadState)
        ensures
            r == ReadState::of_flag(flag),
            r.flag() == flag,
    {
        match flag {
            None => ReadState::Unknown,
            Some(false) => ReadState::ToBeRead,
            Some(true) => ReadState::Read,
        }
    }

    /// The nullable flag that stands for the state.
    pub fn to_flag(&self) -> (r: Option<bool>)
        ensures
            r == self.flag(),
            ReadState::of_flag(r) == *self,
    {
        match self {
            ReadState::Unknown => None,
            ReadState::ToBeRead => Some(false),
            ReadState::Read => Some(true),
        }
    }
}

/// An entry in or for the reading list.
#[derive(Clone, Debug, PartialEq, Eq)]
pub struct ReadingListEntry {
    /// The link, in its canonical text; the entry's natural key.
    pub url: String,
    /// The line that the entry was taken from.
    pub original_text: String,
    /// The text shown for the entry.
    pub body_text: String,
    /// The day of the note that the entry was taken from.
    pub source_date: Date,
    /// Whether the entry has been read.
    pub read: ReadState,
}

/// What an entry holds.
pub struct EntryModel {
    pub url: Seq<char>,
    pub original_text: Seq<char>,
    pub body_text: Seq<char>,
    pub source_date: Date,
    pub read: ReadState,
}

impl View for ReadingListEntry {
    type V = EntryModel;

    open spec fn view(&self) -> EntryModel {
        EntryModel {
            url: self.url@,
            original_text: self.original_text@,
            body_text: self.body_text@,
            source_date: self.source_date,
            read: self.read,
        }
    }
}

/// The one-line summary of an entry: date, link and body.
pub open spec fn summary_text(entry: EntryModel) -> Seq<char> {
    date_text(entry.source_date) + seq![':', ' '] + entry.url + seq![' ', '-', '-', ' ']
        + entry.body_text
}

impl ReadingListEntry {
    /// A second entry that holds the same values.
    pub fn duplicate(&self) -> (r: ReadingListEntry)
        ensures
            r@ == self@,
    {
        ReadingListEntry {
            url: self.url.clone(),
            original_text: self.original_text.clone(),
            body_text: self.body_text.clone(),
            source_date: self.source_date,
            read: self.read,
        }
    }

    /// The one-line summary of the entry.
    pub fn summary(&self) -> (r: String)
        ensures
            r@ == summary_text(self@),
    {
        let mut out = self.source_date.text();
        out.push(':');
        out.push(' ');
        out.append(self.url.as_str());
        out.push(' ');
        out.push('-');
        out.push('-');
        out.push(' ');
        out.append(self.body_text.as_str());
        proof {
            assert(out@ =~= summary_text(self@));
        }
        out
    }
}

} // verus!
