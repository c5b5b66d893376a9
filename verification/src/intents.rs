//! What the editor and the update ask of the catalog: a new entry from a
//! body, and the ingestion of a scan.

use crate::catalog::{entry_models, insert, Catalog};
use crate::date::Date;
use crate::entry::{EntryModel, ReadingListEntry};
use crate::error::{Error, KindModel, RoundupError, RoundupErrorKind, StoreError};
use crate::model::{lemma_ingest_one, CatalogModel};
use crate::scan::{entry_outcome, scan_body, scanned_body};
use vstd::prelude::*;

verus! {

/// What the creation of an entry comes to: the identifier of the row that
/// holds the entry's link, or the error.
pub enum CreatedModel {
    /// The row under this identifier holds the link.
    Row(int),
    /// The body gave no entry.
    NoEntry(KindModel),
    /// The catalog has no identifier left.
    Full,
}

/// What becomes of the catalog, and what is returned, when an entry is to
/// be created from what a body gave. An error of the scan changes nothing.
/// An entry is offered to the catalog; the result names the row that holds
/// its link, be it new or older than the call.
pub open spec fn created(c: CatalogModel, scanned: Result<EntryModel, KindModel>) -> (
    CatalogModel,
    CreatedModel,
) {
    match scanned {
        Err(kind) => (c, CreatedModel::NoEntry(kind)),
        Ok(entry) => {
            let after = c.ingest_one(entry);
            if after.last_id > i64::MAX {
                (c, CreatedModel::Full)
            } else {
                (after, CreatedModel::Row(after.rows[after.index_of_url(entry.url)].id))
            }
        },
    }
}

/// What a result of a creation holds.
pub open spec fn created_model(r: Result<i64, Error>) -> CreatedModel {
    match r {
        Ok(id) => CreatedModel::Row(id as int),
        Err(Error::ScanningError(kind)) => CreatedModel::NoEntry(kind@),
        Err(Error::StoreError(_)) => CreatedModel::Full,
    }
}

/// The report of an update.
#[derive(Debug, PartialEq, Eq)]
pub struct UpdateReport {
    /// The number of entries that the scan found.
    pub found: usize,
    /// The number of errors that the scan met.
    pub scan_errors: usize,
    /// The number of rows before and after the ingestion, or why the
    /// catalog refused it.
    pub counts: Result<(usize, usize), StoreError>,
}

impl UpdateReport {
    /// Whether the update went through: the catalog took the entries and
    /// the scan met no error.
    pub open spec fn clean(self) -> bool {
        self.counts is Ok && self.scan_errors == 0
    }

    /// Whether the update went through.
    pub fn succeeded(&self) -> (b: bool)
        ensures
            b == self.clean(),
    {
        self.counts.is_ok() && self.scan_errors == 0
    }
}

impl Catalog {
    /// Creates an entry from what a body gave: offers the entry to the
    /// catalog and returns the identifier of the row that holds its link.
    pub fn create_scanned(&mut self, scanned: Result<ReadingListEntry, RoundupErrorKind>) -> (r:
        Result<i64, Error>)
        requires
            old(self).wf(),
        ensures
            final(self).wf(),
            (final(self)@, created_model(r)) == created(old(self)@, entry_outcome(scanned)),
            r matches Err(Error::StoreError(e)) ==> e == StoreError::IdsExhausted,
    {
        match scanned {
            Err(kind) => Err(Error::ScanningError(kind)),
            Ok(entry) => {
                let url = entry.url.clone();
                let mut one: Vec<ReadingListEntry> = Vec::new();
                one.push(entry);
                proof {
                    let offered = entry_models(one@);
                    assert(offered.drop_last() =~= Seq::empty());
                    assert(old(self)@.ingest(offered.drop_last()) == old(self)@);
                    assert(offered.last() == entry@);
                    assert(old(self)@.ingest(offered) == old(self)@.ingest_one(entry@));
                    lemma_ingest_one(old(self)@, entry@);
                }
                match insert(&one, self) {
                    Err(e) => Err(Error::StoreError(e)),
                    Ok(_) => {
                        match self.find_url(&url) {
                            Some(i) => {
                                proof {
                                    let chosen = self@.index_of_url(url@);
                                    assert(self@.rows[i as int].entry.url == url@);
                                    assert(chosen == i);
                                }
                                Ok(self.rows()[i].id)
                            },
                            None => vstd::pervasive::unreached(),
                        }
                    },
                }
            },
        }
    }

    /// Creates an entry from a body, dated `today`: scans the body, offers
    /// the entry to the catalog and returns the identifier of the row that
    /// holds its link.
    pub fn create_entry(&mut self, today: Date, body_text: &str) -> (r: Result<i64, Error>)
        requires
            old(self).wf(),
        ensures
            final(self).wf(),
            (final(self)@, created_model(r))
                == created(old(self)@, scanned_body(today, body_text@)),
    {
        self.create_scanned(scan_body(today, body_text))
    }

    /// Ingests what a scan found, as one transaction, and reports the
    /// number of rows before and after. The scan's errors are counted and
    /// do not keep the entries out.
    pub fn update(
        &mut self,
        entries: &Vec<ReadingListEntry>,
        errors: &Vec<RoundupError>,
    ) -> (report: UpdateReport)
        requires
            old(self).wf(),
        ensures
            final(self).wf(),
            report.found == entries.len(),
            report.scan_errors == errors.len(),
            match report.counts {
                Ok((before, after)) => {
                    &&& final(self)@ == old(self)@.ingest(entry_models(entries@))
                    &&& before == old(self)@.rows.len()
                    &&& after == final(self)@.rows.len()
                },
                Err(e) => e == StoreError::IdsExhausted && final(self)@ == old(self)@,
            },
            report.counts is Ok <==> old(self)@.ingest(entry_models(entries@)).last_id <= i64::MAX,
    {
        let before = self.rows().len();
        let counts = match insert(entries, self) {
            Ok(after) => Ok((before, after)),
            Err(e) => Err(e),
        };
        UpdateReport { found: entries.len(), scan_errors: errors.len(), counts }
    }
}

} // verus!
