//! The file walker: which directory to list next, which file to read next,
//! and what each listing and each file adds to the entries and the errors.
//!
//! The walker reads nothing itself. It names the next thing to do; the
//! caller does it and hands back what came of it.

use crate::date::Date;
use crate::entry::{EntryModel, ReadingListEntry};
use crate::error::{ErrorModel, KindModel, RoundupError, RoundupErrorKind};
use crate::markup::texts;
use crate::scan::{date_outcome, entries_outcome, file_date, scan_lines, scanned_file, stem_date};
use crate::text::chars_of;
use vstd::prelude::*;

verus! {

/// What a child of a directory is.
#[derive(Clone, Copy, Debug, PartialEq, Eq, Structural)]
pub enum ChildKind {
    /// A directory.
    Directory,
    /// A regular file.
    File,
    /// Anything else. A symbolic link counts as this, whatever it leads to:
    /// the walk follows none.
    Other,
}

/// A child of a directory, as its listing gives it.
#[derive(Debug, Clone, PartialEq, Eq)]
pub struct Child {
    /// The path of the child.
    pub path: String,
    /// What the child is.
    pub kind: ChildKind,
    /// The extension of its name, where the name has one that is text.
    pub extension: Option<String>,
    /// The stem of its name, where the name has one that is text.
    pub stem: Option<String>,
}

/// What a child holds.
pub struct ChildModel {
    pub path: Seq<char>,
    pub kind: ChildKind,
    pub extension: Option<Seq<char>>,
    pub stem: Option<Seq<char>>,
}

/// What an optional string holds.
pub open spec fn opt_text(text: Option<String>) -> Option<Seq<char>> {
    match text {
        Some(t) => Some(t@),
        None => None,
    }
}

impl View for Child {
    type V = ChildModel;

    open spec fn view(&self) -> ChildModel {
        ChildModel {
            path: self.path@,
            kind: self.kind,
            extension: opt_text(self.extension),
            stem: opt_text(self.stem),
        }
    }
}

/// What one step of a listing holds: a child, or the cause for which the
/// child could not be inspected.
pub open spec fn child_model(child: Result<Child, String>) -> Result<ChildModel, Seq<char>> {
    match child {
        Ok(c) => Ok(c@),
        Err(cause) => Err(cause@),
    }
}

/// What a listing holds.
pub open spec fn child_models(children: Seq<Result<Child, String>>) -> Seq<
    Result<ChildModel, Seq<char>>,
> {
    Seq::new(children.len(), |i: int| child_model(children[i]))
}

/// What the walker asks for next.
#[derive(Debug, Clone, PartialEq, Eq)]
pub enum WalkAction {
    /// List the directory at this path, and hand the listing to `listed`,
    /// or the cause of the failure to `list_failed`.
    ListDirectory(String),
    /// Read the lines of the file at this path, and hand them to
    /// `file_read`.
    ReadFile(String),
    /// Nothing is left to do.
    Done,
}

/// What an action holds.
pub enum ActionModel {
    ListDirectory(Seq<char>),
    ReadFile(Seq<char>),
    Done,
}

impl View for WalkAction {
    type V = ActionModel;

    open spec fn view(&self) -> ActionModel {
        match self {
            WalkAction::ListDirectory(path) => ActionModel::ListDirectory(path@),
            WalkAction::ReadFile(path) => ActionModel::ReadFile(path@),
            WalkAction::Done => ActionModel::Done,
        }
    }
}

/// The walk as a mathematical value.
pub struct WalkModel {
    /// The directories still to list; the last one is listed next.
    pub dirs: Seq<Seq<char>>,
    /// The directory in hand: the one whose listing is awaited or whose
    /// children are being visited.
    pub current: Option<Seq<char>>,
    /// Whether the listing of the directory in hand is awaited.
    pub awaited: bool,
    /// The listing of the directory in hand.
    pub children: Seq<Result<ChildModel, Seq<char>>>,
    /// The number of children visited.
    pub visited: int,
    /// The file whose lines are awaited, with the date of its name.
    pub reading: Option<(Seq<char>, Date)>,
    /// The entries found so far.
    pub entries: Seq<EntryModel>,
    /// The errors met so far.
    pub errors: Seq<ErrorModel>,
}

/// The extension of the files that are scanned.
pub open spec fn note_extension() -> Seq<char> {
    seq!['m', 'd']
}

/// Whether a child is scanned: a regular file whose extension is `md`,
/// letter for letter.
pub open spec fn is_note(child: ChildModel) -> bool {
    child.kind == ChildKind::File && child.extension == Some(note_extension())
}

/// The walk that starts at `dir`.
pub open spec fn walk_from(dir: Seq<char>) -> WalkModel {
    WalkModel {
        dirs: seq![dir],
        current: None,
        awaited: false,
        children: Seq::empty(),
        visited: 0,
        reading: None,
        entries: Seq::empty(),
        errors: Seq::empty(),
    }
}

impl WalkModel {
    /// The walk with one more error.
    pub open spec fn with_error(self, file: Seq<char>, kind: KindModel) -> WalkModel {
        WalkModel { errors: self.errors.push(ErrorModel { file, kind }), ..self }
    }

    /// The walk after the next child of the directory in hand was passed.
    pub open spec fn past_child(self) -> WalkModel {
        WalkModel { visited: self.visited + 1, ..self }
    }

    /// Takes the next directory from the stack, or ends the walk.
    pub open spec fn next_directory(self) -> (WalkModel, ActionModel) {
        if self.dirs.len() == 0 {
            (WalkModel { current: None, awaited: false, ..self }, ActionModel::Done)
        } else {
            (
                WalkModel {
                    dirs: self.dirs.drop_last(),
                    current: Some(self.dirs.last()),
                    awaited: true,
                    children: Seq::empty(),
                    visited: 0,
                    ..self
                },
                ActionModel::ListDirectory(self.dirs.last()),
            )
        }
    }

    /// The next thing to do, and the walk that awaits it. A file or a
    /// listing that is awaited is asked for again. Else the children of the
    /// directory in hand are visited in order: a child that could not be
    /// inspected is an error against the directory; a directory goes on the
    /// stack; a note whose name gives no date is an error against the note;
    /// a note whose name gives a date is read; anything else is passed.
    /// Behind the last child the next directory is taken from the stack.
    pub open spec fn advance(self) -> (WalkModel, ActionModel)
        decreases self.children.len() - self.visited,
    {
        if let Some((path, _)) = self.reading {
            (self, ActionModel::ReadFile(path))
        } else if self.current is Some && self.awaited {
            (self, ActionModel::ListDirectory(self.current->0))
        } else if self.current is Some && 0 <= self.visited < self.children.len() {
            match self.children[self.visited] {
                Err(cause) => self.past_child().with_error(
                    self.current->0,
                    KindModel::StatIOError(cause),
                ).advance(),
                Ok(child) => if child.kind == ChildKind::Directory {
                    WalkModel { dirs: self.dirs.push(child.path), ..self.past_child() }.advance()
                } else if is_note(child) {
                    match stem_date(child.stem) {
                        Err(kind) => self.past_child().with_error(child.path, kind).advance(),
                        Ok(date) => (
                            WalkModel { reading: Some((child.path, date)), ..self.past_child() },
                            ActionModel::ReadFile(child.path),
                        ),
                    }
                } else {
                    self.past_child().advance()
                },
            }
        } else {
            self.next_directory()
        }
    }

    /// The walk after the awaited listing was given. Without an awaited
    /// listing nothing changes.
    pub open spec fn listed(self, children: Seq<Result<ChildModel, Seq<char>>>) -> WalkModel {
        if self.current is Some && self.awaited && self.reading is None {
            WalkModel { awaited: false, children, visited: 0, ..self }
        } else {
            self
        }
    }

    /// The walk after the awaited listing failed: one error against the
    /// directory, and the directory is done. Without an awaited listing
    /// nothing changes.
    pub open spec fn list_failed(self, cause: Seq<char>) -> WalkModel {
        if self.current is Some && self.awaited && self.reading is None {
            WalkModel {
                current: None,
                awaited: false,
                ..self.with_error(self.current->0, KindModel::StatIOError(cause))
            }
        } else {
            self
        }
    }

    /// The walk after the awaited file was read as far as `lines`, where
    /// reading stopped on `failure` if that is given: the entries of the
    /// file are added, or one error against the file. Without an awaited file
    /// nothing changes.
    pub open spec fn file_read(self, lines: Seq<Seq<char>>, failure: Option<Seq<char>>)
        -> WalkModel {
        match self.reading {
            None => self,
            Some((path, date)) => match scanned_file(date, lines, failure) {
                Ok(entries) => WalkModel {
                    reading: None,
                    entries: self.entries + entries,
                    ..self
                },
                Err(kind) => WalkModel { reading: None, ..self.with_error(path, kind) },
            },
        }
    }
}

/// A directory that cannot be listed is exactly one error, against that
/// directory: the directories still to list, the entries and the errors
/// before it stay as they are.
pub proof fn law_unreadable_directory_is_one_error(walk: WalkModel, cause: Seq<char>)
    requires
        walk.current is Some,
        walk.awaited,
        walk.reading is None,
    ensures
        walk.list_failed(cause).errors == walk.errors.push(
            ErrorModel { file: walk.current->0, kind: KindModel::StatIOError(cause) },
        ),
        walk.list_failed(cause).dirs == walk.dirs,
        walk.list_failed(cause).entries == walk.entries,
{
}

/// A file adds entries or one error, never both, and takes nothing away:
/// what was found in other files stays.
pub proof fn law_files_are_independent(
    walk: WalkModel,
    lines: Seq<Seq<char>>,
    failure: Option<Seq<char>>,
)
    requires
        walk.reading is Some,
    ensures
        walk.file_read(lines, failure).dirs == walk.dirs,
        match scanned_file((walk.reading->0).1, lines, failure) {
            Ok(entries) => {
                &&& walk.file_read(lines, failure).entries == walk.entries + entries
                &&& walk.file_read(lines, failure).errors == walk.errors
            },
            Err(kind) => {
                &&& walk.file_read(lines, failure).entries == walk.entries
                &&& walk.file_read(lines, failure).errors == walk.errors.push(
                    ErrorModel { file: (walk.reading->0).0, kind },
                )
            },
        },
{
}

/// Going on to the next action finds no entries and loses none, and keeps
/// every error met so far, in order.
pub proof fn law_advance_keeps_what_was_found(walk: WalkModel)
    ensures
        walk.advance().0.entries == walk.entries,
        walk.errors.len() <= walk.advance().0.errors.len(),
        walk.advance().0.errors.take(walk.errors.len() as int) == walk.errors,
    decreases walk.children.len() - walk.visited,
{
    let after = walk.advance().0;
    if walk.reading is None && !(walk.current is Some && walk.awaited) && walk.current is Some && 0
        <= walk.visited < walk.children.len() {
        let past = walk.past_child();
        match walk.children[walk.visited] {
            Err(cause) => {
                let next = past.with_error(walk.current->0, KindModel::StatIOError(cause));
                law_advance_keeps_what_was_found(next);
                assert(after.errors.take(walk.errors.len() as int) =~= next.advance().0.errors.take(
                    next.errors.len() as int,
                ).take(walk.errors.len() as int));
                assert(next.errors.take(walk.errors.len() as int) =~= walk.errors);
            },
            Ok(child) => {
                if child.kind == ChildKind::Directory {
                    law_advance_keeps_what_was_found(
                        WalkModel { dirs: walk.dirs.push(child.path), ..past },
                    );
                } else if is_note(child) {
                    match stem_date(child.stem) {
                        Err(kind) => {
                            let next = past.with_error(child.path, kind);
                            law_advance_keeps_what_was_found(next);
                            assert(after.errors.take(walk.errors.len() as int)
                                =~= next.advance().0.errors.take(next.errors.len() as int).take(
                                walk.errors.len() as int,
                            ));
                            assert(next.errors.take(walk.errors.len() as int) =~= walk.errors);
                        },
                        Ok(date) => {
                            assert(after.errors.take(walk.errors.len() as int) =~= walk.errors);
                        },
                    }
                } else {
                    law_advance_keeps_what_was_found(past);
                }
            },
        }
    } else {
        assert(after.errors.take(walk.errors.len() as int) =~= walk.errors);
    }
}

/// A file whose lines are awaited.
#[derive(Debug)]
struct AwaitedFile {
    path: String,
    date: Date,
}

/// A walk over the files under a directory.
#[derive(Debug)]
pub struct Walk {
    dirs: Vec<String>,
    current: Option<String>,
    awaited: bool,
    children: Vec<Result<Child, String>>,
    visited: usize,
    reading: Option<AwaitedFile>,
    entries: Vec<ReadingListEntry>,
    errors: Vec<RoundupError>,
}

/// What a list of errors holds.
pub open spec fn error_models(errors: Seq<RoundupError>) -> Seq<ErrorModel> {
    Seq::new(errors.len(), |i: int| errors[i]@)
}

impl View for Walk {
    type V = WalkModel;

    closed spec fn view(&self) -> WalkModel {
        WalkModel {
            dirs: texts(self.dirs@),
            current: opt_text(self.current),
            awaited: self.awaited,
            children: child_models(self.children@),
            visited: self.visited as int,
            reading: match self.reading {
                Some(file) => Some((file.path@, file.date)),
                None => None,
            },
            entries: crate::catalog::entry_models(self.entries@),
            errors: error_models(self.errors@),
        }
    }
}

/// Whether an extension is `md`, letter for letter.
fn is_note_extension(extension: &Option<String>) -> (b: bool)
    ensures
        b == (opt_text(*extension) == Some(note_extension())),
{
    match extension {
        Some(text) => {
            let chars = chars_of(text.as_str());
            let b = chars.len() == 2 && chars[0] == 'm' && chars[1] == 'd';
            proof {
                if b {
                    assert(text@ =~= note_extension());
                }
            }
            b
        },
        None => false,
    }
}

/// Starts a walk over the files under `dir`: the directory itself is the
/// first to be listed.
pub fn scan_files(dir: &str) -> (walk: Walk)
    ensures
        walk@ == walk_from(dir@),
{
    let mut dirs: Vec<String> = Vec::new();
    dirs.push(dir.to_owned());
    let walk = Walk {
        dirs,
        current: None,
        awaited: false,
        children: Vec::new(),
        visited: 0,
        reading: None,
        entries: Vec::new(),
        errors: Vec::new(),
    };
    proof {
        assert(walk@.dirs =~= seq![dir@]);
        assert(walk@.children =~= Seq::empty());
        assert(walk@.entries =~= Seq::empty());
        assert(walk@.errors =~= Seq::empty());
    }
    walk
}

impl Walk {
    fn push_error(&mut self, file: String, kind: RoundupErrorKind)
        ensures
            final(self)@ == old(self)@.with_error(file@, kind@),
    {
        self.errors.push(RoundupError { file, kind });
        proof {
            assert(self@.errors =~= old(self)@.with_error(file@, kind@).errors);
        }
    }

    /// Says what to do next, and awaits it.
    pub fn next(&mut self) -> (action: WalkAction)
        ensures
            (final(self)@, action@) == old(self)@.advance(),
    {
        if let Some(file) = &self.reading {
            return WalkAction::ReadFile(file.path.clone());
        }
        if self.awaited {
            if let Some(dir) = &self.current {
                return WalkAction::ListDirectory(dir.clone());
            }
        }
        if self.current.is_some() {
            let dir: String = match &self.current {
                Some(d) => d.clone(),
                None => String::new(),
            };
            while self.visited < self.children.len()
                invariant
                    self@.reading is None,
                    !self@.awaited,
                    self@.current == Some(dir@),
                    self@.advance() == old(self)@.advance(),
                decreases self.children.len() - self.visited,
            {
                let ghost before = self@;
                let i = self.visited;
                proof {
                    assert(before.children[i as int] == child_model(self.children@[i as int]));
                }
                self.visited = self.visited + 1;
                proof {
                    assert(self@ == before.past_child());
                }
                match &self.children[i] {
                    Err(cause) => {
                        let cause = cause.clone();
                        self.push_error(dir.clone(), RoundupErrorKind::StatIOError(cause));
                    },
                    Ok(child) => {
                        if child.kind == ChildKind::Directory {
                            let path = child.path.clone();
                            self.dirs.push(path);
                            proof {
                                assert(self@.dirs =~= before.dirs.push(path@));
                            }
                        } else if child.kind == ChildKind::File && is_note_extension(
                            &child.extension,
                        ) {
                            let path = child.path.clone();
                            let stem: Option<&str> = match &child.stem {
                                Some(s) => Some(s.as_str()),
                                None => None,
                            };
                            match file_date(stem) {
                                Err(kind) => {
                                    self.push_error(path, kind);
                                },
                                Ok(date) => {
                                    self.reading = Some(AwaitedFile { path: path.clone(), date });
                                    return WalkAction::ReadFile(path);
                                },
                            }
                        }
                    },
                }
            }
        }
        match self.dirs.pop() {
            Some(dir) => {
                self.current = Some(dir.clone());
                self.awaited = true;
                self.children = Vec::new();
                self.visited = 0;
                proof {
                    assert(self@.dirs =~= old(self)@.advance().0.dirs);
                    assert(self@.children =~= Seq::empty());
                }
                WalkAction::ListDirectory(dir)
            },
            None => {
                self.current = None;
                self.awaited = false;
                WalkAction::Done
            },
        }
    }

    /// Takes the awaited listing: the children of the directory in hand, in
    /// the order in which they are to be visited. Without an awaited listing
    /// nothing changes.
    pub fn listed(&mut self, children: Vec<Result<Child, String>>)
        ensures
            final(self)@ == old(self)@.listed(child_models(children@)),
    {
        if self.current.is_some() && self.awaited && self.reading.is_none() {
            self.children = children;
            self.visited = 0;
            self.awaited = false;
        }
    }

    /// Takes the failure of the awaited listing: one error against the
    /// directory in hand. The other directories are not touched. Without an
    /// awaited listing nothing changes.
    pub fn list_failed(&mut self, cause: String)
        ensures
            final(self)@ == old(self)@.list_failed(cause@),
    {
        if self.awaited && self.reading.is_none() {
            let current = self.current.take();
            match current {
                Some(dir) => {
                    self.awaited = false;
                    self.push_error(dir, RoundupErrorKind::StatIOError(cause));
                },
                None => {},
            }
        }
    }

    /// Takes the lines of the awaited file, and the cause for which reading
    /// stopped behind them if it did: the entries of the file are added, or
    /// one error against the file. Without an awaited file nothing changes.
    pub fn file_read(&mut self, lines: &Vec<String>, failure: Option<String>)
        ensures
            final(self)@ == old(self)@.file_read(texts(lines@), opt_text(failure)),
    {
        let reading = self.reading.take();
        match reading {
            Some(file) => {
                match scan_lines(file.date, lines, failure) {
                    Ok(mut entries) => {
                        let ghost before = self@.entries;
                        let ghost added = crate::catalog::entry_models(entries@);
                        self.entries.append(&mut entries);
                        proof {
                            assert(self@.entries =~= before + added);
                        }
                    },
                    Err(kind) => {
                        self.push_error(file.path, kind);
                    },
                }
            },
            None => {},
        }
    }

    /// The entries found and the errors met.
    pub fn finish(self) -> (r: (Vec<ReadingListEntry>, Vec<RoundupError>))
        ensures
            crate::catalog::entry_models(r.0@) == self@.entries,
            error_models(r.1@) == self@.errors,
            r.0.len() == self@.entries.len(),
            r.1.len() == self@.errors.len(),
    {
        proof {
            assert(crate::catalog::entry_models(self.entries@).len() == self.entries.len());
            assert(error_models(self.errors@).len() == self.errors.len());
        }
        (self.entries, self.errors)
    }
}

} // verus!
