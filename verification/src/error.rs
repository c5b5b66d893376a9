//! Errors.

use vstd::prelude::*;

verus! {

/// The reason given where a file has no name stem that is text.
pub const STEM_NOT_DECODABLE: &'static str = "stem not decodable";

/// The reason given where a file's name stem is no date.
pub const STEM_NOT_A_DATE: &'static str = "stem is not YYYY-MM-DD";

/// Why no entries were taken from a file or a directory.
#[derive(Debug, Clone, PartialEq, Eq)]
pub enum RoundupErrorKind {
    /// Reading the file failed; the cause.
    ScanIOError(String),
    /// Listing the directory or inspecting one of its children failed; the
    /// cause.
    StatIOError(String),
    /// The file's name gives no date; the reason.
    InvalidFile(&'static str),
    /// The body could not be parsed as markup; the body.
    MarkdownError(String),
    /// The body holds no usable link; the body.
    MissingLink(String),
}

/// What an error kind holds.
pub enum KindModel {
    ScanIOError(Seq<char>),
    StatIOError(Seq<char>),
    InvalidFile(Seq<char>),
    MarkdownError(Seq<char>),
    MissingLink(Seq<char>),
}

impl View for RoundupErrorKind {
    type V = KindModel;

    open spec fn view(&self) -> KindModel {
        match self {
            RoundupErrorKind::ScanIOError(cause) => KindModel::ScanIOError(cause@),
            RoundupErrorKind::StatIOError(cause) => KindModel::StatIOError(cause@),
            RoundupErrorKind::InvalidFile(reason) => KindModel::InvalidFile(reason@),
            RoundupErrorKind::MarkdownError(body) => KindModel::MarkdownError(body@),
            RoundupErrorKind::MissingLink(body) => KindModel::MissingLink(body@),
        }
    }
}

/// An error met while taking entries from the files under a directory.
#[derive(Debug, Clone, PartialEq, Eq)]
pub struct RoundupError {
    /// The path of the file or directory.
    pub file: String,
    /// What went wrong there.
    pub kind: RoundupErrorKind,
}

/// What an error holds.
pub struct ErrorModel {
    pub file: Seq<char>,
    pub kind: KindModel,
}

impl View for RoundupError {
    type V = ErrorModel;

    open spec fn view(&self) -> ErrorModel {
        ErrorModel { file: self.file@, kind: self.kind@ }
    }
}

/// Why the catalog refused an operation.
#[derive(Clone, Copy, Debug, PartialEq, Eq, Structural)]
pub enum StoreError {
    /// No identifier is left for a new entry.
    IdsExhausted,
    /// No entry has the identifier.
    MissingEntry(i64),
}

/// An error of a catalog operation.
#[derive(Debug, Clone, PartialEq, Eq)]
pub enum Error {
    /// The catalog refused the operation.
    StoreError(StoreError),
    /// The body gave no entry.
    ScanningError(RoundupErrorKind),
}

} // verus!
