//! A reading roundup: tagged lines of dated notes become entries of a
//! reading list, entries are grouped into dated roundups, and a roundup is
//! exported as a Markdown document.
//!
//! - [`tagline`] recognises the lines of a note that offer an entry.
//! - [`scan`] makes an entry of a body and its link, and scans the lines
//!   of a note; [`markup`] holds what it reads of a parsed body.
//! - [`walk`] decides which directories are listed and which files are
//!   read. It reads nothing itself: the caller lists and reads, and hands
//!   back what came of it.
//! - [`catalog`] is the store of the entries and the memberships;
//!   [`intents`] and [`export`] add what the editor asks of it. [`model`]
//!   and [`order`] say what each operation means, and [`laws`] what holds
//!   of the catalog whatever is done to it.
//! - [`date`], [`entry`], [`error`] and [`text`] hold the values that the
//!   others share.

pub mod catalog;
pub mod date;
pub mod entry;
pub mod error;
pub mod export;
pub mod intents;
pub mod laws;
pub mod markup;
pub mod model;
pub mod order;
pub mod scan;
pub mod tagline;
pub mod text;
pub mod walk;
