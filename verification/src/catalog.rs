//! The catalog store: the reading list and the roundup memberships.

use crate::date::Date;
use crate::entry::{EntryModel, ReadState, ReadingListEntry};
use crate::error::StoreError;
use crate::model::{
    empty_catalog, lemma_ingest_next, lemma_ingest_one, lemma_ingest_prefix, CatalogModel,
    MemberModel, RowModel,
};
use crate::order::{
    date_slot, dates_of, insert_row, lemma_sorted, precedes, row_slot, sorted, ListedModel,
};
use vstd::prelude::*;

verus! {

/// A row of the reading list: an entry under its identifier.
#[derive(Debug, Clone, PartialEq, Eq)]
pub struct CatalogRow {
    pub id: i64,
    pub entry: ReadingListEntry,
}

impl View for CatalogRow {
    type V = RowModel;

    open spec fn view(&self) -> RowModel {
        RowModel { id: self.id as int, entry: self.entry@ }
    }
}

/// A membership: the entry with identifier `entry` belongs to the roundup of
/// `date`.
#[derive(Clone, Copy, Debug, PartialEq, Eq, Structural)]
pub struct Membership {
    pub date: Date,
    pub entry: i64,
}

impl View for Membership {
    type V = MemberModel;

    open spec fn view(&self) -> MemberModel {
        MemberModel { date: self.date, entry: self.entry as int }
    }
}

/// A row as the listings give it: the entry under its identifier, whether it
/// is included, and the number of roundups that hold it.
#[derive(Debug, Clone, PartialEq, Eq)]
pub struct RoundupRow {
    pub id: i64,
    pub included: bool,
    pub count: usize,
    pub entry: ReadingListEntry,
}

impl View for RoundupRow {
    type V = ListedModel;

    open spec fn view(&self) -> ListedModel {
        ListedModel {
            id: self.id as int,
            included: self.included,
            count: self.count as nat,
            entry: self.entry@,
        }
    }
}

/// What a list of listed rows holds.
pub open spec fn listed_models(rows: Seq<RoundupRow>) -> Seq<ListedModel> {
    Seq::new(rows.len(), |i: int| rows[i]@)
}

/// What a list of entries holds.
pub open spec fn entry_models(entries: Seq<ReadingListEntry>) -> Seq<EntryModel> {
    Seq::new(entries.len(), |i: int| entries[i]@)
}

/// What a list of rows holds.
pub open spec fn row_models(rows: Seq<CatalogRow>) -> Seq<RowModel> {
    Seq::new(rows.len(), |i: int| rows[i]@)
}

/// What a list of memberships holds.
pub open spec fn member_models(members: Seq<Membership>) -> Seq<MemberModel> {
    Seq::new(members.len(), |i: int| members[i]@)
}

/// A list of identifiers as integers.
pub open spec fn id_models(ids: Seq<i64>) -> Seq<int> {
    Seq::new(ids.len(), |i: int| ids[i] as int)
}

/// The greatest identifier among `rows`, and 0 where none is above it.
pub open spec fn greatest_id(rows: Seq<RowModel>) -> int
    decreases rows.len(),
{
    if rows.len() == 0 {
        0
    } else if rows.last().id > greatest_id(rows.drop_last()) {
        rows.last().id
    } else {
        greatest_id(rows.drop_last())
    }
}

/// No two rows share an identifier or a link.
pub open spec fn distinct_rows(rows: Seq<RowModel>) -> bool {
    forall|a: int, b: int|
        0 <= a < b < rows.len() ==> (#[trigger] rows[a]).id != (#[trigger] rows[b]).id
            && rows[a].entry.url
            != rows[b].entry.url
}

/// The catalog store.
#[derive(Debug)]
pub struct Catalog {
    rows: Vec<CatalogRow>,
    members: Vec<Membership>,
    last_id: i64,
}

impl View for Catalog {
    type V = CatalogModel;

    closed spec fn view(&self) -> CatalogModel {
        CatalogModel {
            rows: row_models(self.rows@),
            members: member_models(self.members@),
            last_id: self.last_id as int,
        }
    }
}

impl Catalog {
    /// The catalog's invariant: links and identifiers are unique.
    pub open spec fn wf(&self) -> bool {
        self@.wf()
    }

    /// The empty catalog.
    pub fn new() -> (c: Catalog)
        ensures
            c@ == empty_catalog(),
            c.wf(),
    {
        let c = Catalog { rows: Vec::new(), members: Vec::new(), last_id: 0 };
        proof {
            assert(c@.rows =~= Seq::empty());
            assert(c@.members =~= Seq::empty());
        }
        c
    }

    /// The catalog that holds the given rows and memberships, where no two
    /// rows share a link or an identifier. The greatest identifier among the
    /// rows counts as the last one handed out.
    pub fn from_parts(rows: Vec<CatalogRow>, members: Vec<Membership>) -> (r: Option<Catalog>)
        ensures
            match r {
                Some(c) => {
                    &&& c.wf()
                    &&& c@.rows == row_models(rows@)
                    &&& c@.members == member_models(members@)
                    &&& c@.last_id == greatest_id(row_models(rows@))
                },
                None => !distinct_rows(row_models(rows@)),
            },
            r is Some <==> distinct_rows(row_models(rows@)),
    {
        let ghost models = row_models(rows@);
        let mut last_id: i64 = 0;
        let mut j: usize = 0;
        proof {
            assert(models.take(0) =~= Seq::empty());
        }
        while j < rows.len()
            invariant
                j <= rows.len(),
                models == row_models(rows@),
                distinct_rows(models.take(j as int)),
                last_id == greatest_id(models.take(j as int)),
                forall|k: int| 0 <= k < j ==> (#[trigger] models[k]).id <= last_id,
            decreases rows.len() - j,
        {
            let mut i: usize = 0;
            while i < j
                invariant
                    i <= j < rows.len(),
                    models == row_models(rows@),
                    forall|k: int|
                        0 <= k < i ==> (#[trigger] models[k]).id != models[j as int].id
                            && models[k].entry.url
                            != models[j as int].entry.url,
                decreases j - i,
            {
                if rows[i].id == rows[j].id || rows[i].entry.url == rows[j].entry.url {
                    proof {
                        assert(models[i as int] == rows@[i as int]@);
                        assert(models[j as int] == rows@[j as int]@);
                    }
                    return None;
                }
                proof {
                    assert(models[i as int] == rows@[i as int]@);
                    assert(models[j as int] == rows@[j as int]@);
                }
                i += 1;
            }
            proof {
                assert(models.take(j as int + 1).drop_last() =~= models.take(j as int));
                assert(models[j as int] == rows@[j as int]@);
                let wider = models.take(j as int + 1);
                assert forall|a: int, b: int| 0 <= a < b < wider.len()
                    implies (#[trigger] wider[a]).id
                    != (#[trigger] wider[b]).id && wider[a].entry.url != wider[b].entry.url by {
                    if b < j {
                        assert(models.take(j as int)[a] == wider[a]);
                        assert(models.take(j as int)[b] == wider[b]);
                    }
                }
            }
            if rows[j].id > last_id {
                last_id = rows[j].id;
            }
            j += 1;
        }
        proof {
            assert(models.take(j as int) =~= models);
        }
        Some(Catalog { rows, members, last_id })
    }

    /// The rows of the reading list, in the order of insertion.
    pub fn rows(&self) -> (r: &Vec<CatalogRow>)
        ensures
            row_models(r@) == self@.rows,
            r.len() == self@.rows.len(),
    {
        &self.rows
    }

    /// The memberships, in the order of insertion.
    pub fn memberships(&self) -> (r: &Vec<Membership>)
        ensures
            member_models(r@) == self@.members,
            r.len() == self@.members.len(),
    {
        &self.members
    }

    /// The index of the row that holds `url`, if there is one.
    pub(crate) fn find_url(&self, url: &String) -> (r: Option<usize>)
        ensures
            match r {
                Some(i) => i < self@.rows.len() && self@.rows[i as int].entry.url == url@,
                None => !self@.has_url(url@),
            },
    {
        let mut i: usize = 0;
        while i < self.rows.len()
            invariant
                i <= self.rows.len(),
                forall|k: int| 0 <= k < i ==> (#[trigger] self@.rows[k]).entry.url != url@,
            decreases self.rows.len() - i,
        {
            if self.rows[i].entry.url == *url {
                return Some(i);
            }
            i += 1;
        }
        None
    }

    /// The index of the row with the identifier `id`, if there is one.
    pub(crate) fn find_id(&self, id: i64) -> (r: Option<usize>)
        ensures
            match r {
                Some(i) => i < self@.rows.len() && self@.rows[i as int].id == id,
                None => !self@.has_id(id as int),
            },
    {
        let mut i: usize = 0;
        while i < self.rows.len()
            invariant
                i <= self.rows.len(),
                forall|k: int| 0 <= k < i ==> (#[trigger] self@.rows[k]).id != id,
            decreases self.rows.len() - i,
        {
            if self.rows[i].id == id {
                return Some(i);
            }
            i += 1;
        }
        None
    }

    /// Sets the body and the read state of the entry `id`. The link, the
    /// original text and the source date stay. Returns the number of rows
    /// changed: none where no entry has that identifier.
    pub fn update_entry(&mut self, id: i64, body_text: &str, read: ReadState) -> (changed: usize)
        requires
            old(self).wf(),
        ensures
            final(self).wf(),
            final(self)@ == old(self)@.update_entry(id as int, body_text@, read),
            changed == (if old(self)@.has_id(id as int) {
                1nat
            } else {
                0nat
            }),
            !old(self)@.has_id(id as int) ==> final(self)@ == old(self)@,
    {
        let found = self.find_id(id);
        match found {
            Some(i) => {
                let ghost before = self@;
                let url = self.rows[i].entry.url.clone();
                let original_text = self.rows[i].entry.original_text.clone();
                let source_date = self.rows[i].entry.source_date;
                let entry = ReadingListEntry {
                    url,
                    original_text,
                    body_text: body_text.to_owned(),
                    source_date,
                    read,
                };
                self.rows.set(i, CatalogRow { id, entry });
                proof {
                    let after = before.update_entry(id as int, body_text@, read);
                    assert forall|k: int| 0 <= k < before.rows.len()
                        implies #[trigger] self@.rows[k]
                        == after.rows[k] by {
                        if k != i {
                            assert(before.rows[k].id != before.rows[i as int].id);
                        }
                    }
                    assert(self@.rows =~= after.rows);
                    assert(before.rows[i as int].id == id);
                }
                1
            },
            None => {
                proof {
                    let after = self@.update_entry(id as int, body_text@, read);
                    assert(self@.rows =~= after.rows);
                }
                0
            },
        }
    }

    /// Sets the roundup of `date` to `ids`, as one transaction: the
    /// memberships of that date are dropped, then one is added per element of
    /// `ids`, in order. An identifier that stands twice in `ids` makes two
    /// memberships. Whether the identifiers name entries is not looked at.
    pub fn set_roundup(&mut self, date: Date, ids: &Vec<i64>)
        requires
            old(self).wf(),
        ensures
            final(self).wf(),
            final(self)@ == old(self)@.set_roundup(date, id_models(ids@)),
    {
        let ghost keep = |m: MemberModel| m.date != date;
        let ghost before = self@.members;
        let mut kept: Vec<Membership> = Vec::new();
        let mut k: usize = 0;
        proof {
            assert(before.take(0) =~= Seq::empty());
            assert(before.take(0).filter(keep) =~= Seq::empty()) by {
                reveal(Seq::filter);
            }
        }
        while k < self.members.len()
            invariant
                k <= self.members.len(),
                *self == *old(self),
                before == self@.members,
                keep == (|m: MemberModel| m.date != date),
                member_models(kept@) == before.take(k as int).filter(keep),
            decreases self.members.len() - k,
        {
            let member = self.members[k];
            proof {
                assert(before.take(k as int + 1) =~= before.take(k as int).push(before[k as int]));
                before.take(k as int).lemma_filter_push(before[k as int], keep);
            }
            if member.date != date {
                let ghost kept_then = kept@;
                kept.push(member);
                proof {
                    assert(member_models(kept@) =~= member_models(kept_then).push(member@));
                }
            }
            k += 1;
        }
        proof {
            assert(before.take(k as int) =~= before);
        }
        let ghost kept_models = member_models(kept@);
        let mut i: usize = 0;
        while i < ids.len()
            invariant
                i <= ids.len(),
                *self == *old(self),
                member_models(kept@) == kept_models + crate::model::members_of(
                    date,
                    id_models(ids@),
                ).take(i as int),
            decreases ids.len() - i,
        {
            let ghost kept_then = kept@;
            kept.push(Membership { date, entry: ids[i] });
            proof {
                let added = crate::model::members_of(date, id_models(ids@));
                assert(added.take(i as int + 1) =~= added.take(i as int).push(added[i as int]));
                assert(member_models(kept@) =~= member_models(kept_then).push(added[i as int]));
            }
            i += 1;
        }
        proof {
            let added = crate::model::members_of(date, id_models(ids@));
            assert(added.take(i as int) =~= added);
        }
        self.members = kept;
    }

    /// Whether the entry `id` belongs to the roundup of `date`.
    fn is_member(&self, date: Date, id: i64) -> (b: bool)
        ensures
            b == self@.is_member(date, id as int),
    {
        let mut k: usize = 0;
        while k < self.members.len()
            invariant
                k <= self.members.len(),
                forall|j: int| 0 <= j < k ==> (#[trigger] self@.members[j]) != (MemberModel {
                    date,
                    entry: id as int,
                }),
            decreases self.members.len() - k,
        {
            if self.members[k].date == date && self.members[k].entry == id {
                proof {
                    assert(self@.members[k as int] == (MemberModel { date, entry: id as int }));
                }
                return true;
            }
            k += 1;
        }
        false
    }

    /// The number of memberships of the entry `id`.
    fn membership_count(&self, id: i64) -> (n: usize)
        ensures
            n == self@.membership_count(id as int),
    {
        let ghost of_entry = |m: MemberModel| m.entry == id as int;
        let ghost members = self@.members;
        let mut n: usize = 0;
        let mut k: usize = 0;
        proof {
            assert(members.take(0) =~= Seq::empty());
            assert(members.take(0).filter(of_entry) =~= Seq::empty()) by {
                reveal(Seq::filter);
            }
        }
        while k < self.members.len()
            invariant
                k <= self.members.len(),
                members == self@.members,
                of_entry == (|m: MemberModel| m.entry == id as int),
                n == members.take(k as int).filter(of_entry).len(),
                n <= k,
            decreases self.members.len() - k,
        {
            proof {
                assert(members.take(k as int + 1)
                    =~= members.take(k as int).push(members[k as int]));
                members.take(k as int).lemma_filter_push(members[k as int], of_entry);
            }
            if self.members[k].entry == id {
                n += 1;
            }
            k += 1;
        }
        proof {
            assert(members.take(k as int) =~= members);
        }
        n
    }

    /// The dates of the memberships, each once, in ascending order. With
    /// `only` given, the memberships of that entry alone count.
    fn dates(&self, only: Option<i64>) -> (r: Vec<Date>)
        ensures
            r@ == dates_of(
                self@.members,
                match only {
                    Some(id) => Some(id as int),
                    None => None,
                },
            ),
    {
        let ghost wanted: Option<int> = match only {
            Some(id) => Some(id as int),
            None => None,
        };
        let ghost members = self@.members;
        let mut out: Vec<Date> = Vec::new();
        let mut k: usize = 0;
        proof {
            assert(members.take(0) =~= Seq::empty());
        }
        while k < self.members.len()
            invariant
                k <= self.members.len(),
                members == self@.members,
                wanted == (match only {
                    Some(id) => Some(id as int),
                    None => None,
                }),
                out@ == dates_of(members.take(k as int), wanted),
            decreases self.members.len() - k,
        {
            let member = self.members[k];
            proof {
                assert(members.take(k as int + 1).drop_last() =~= members.take(k as int));
            }
            let counts = match only {
                Some(id) => member.entry == id,
                None => true,
            };
            if counts {
                let mut slot: usize = 0;
                while slot < out.len() && out[slot].is_before(&member.date)
                    invariant
                        slot <= out.len(),
                        date_slot(out@, member.date, slot as int)
                            == date_slot(out@, member.date, 0),
                    decreases out.len() - slot,
                {
                    slot += 1;
                }
                if !(slot < out.len() && out[slot] == member.date) {
                    out.insert(slot, member.date);
                }
            }
            k += 1;
        }
        proof {
            assert(members.take(k as int) =~= members);
        }
        out
    }

    /// The dates that have a roundup, each once, in ascending order.
    pub fn list_roundups(&self) -> (r: Vec<Date>)
        ensures
            r@ == self@.roundups(),
    {
        self.dates(None)
    }

    /// The dates whose roundup holds the entry `id`, each once, in ascending
    /// order.
    pub fn list_roundups_by_entry(&self, id: i64) -> (r: Vec<Date>)
        ensures
            r@ == self@.roundups_of(id as int),
    {
        self.dates(Some(id))
    }

    /// The entry under the identifier `id`, with the number of its
    /// memberships over all roundups.
    pub fn get_entry(&self, id: i64) -> (r: Result<(ReadingListEntry, usize), StoreError>)
        requires
            self.wf(),
        ensures
            match r {
                Ok((entry, count)) => self@.get_entry(id as int) == Some((entry@, count as nat)),
                Err(e) => e == StoreError::MissingEntry(id) && self@.get_entry(id as int) is None,
            },
    {
        match self.find_id(id) {
            Some(i) => {
                proof {
                    let chosen = self@.index_of_id(id as int);
                    assert(self@.rows[i as int].id == id);
                    assert(chosen == i);
                }
                Ok((self.rows[i].entry.duplicate(), self.membership_count(id)))
            },
            None => Err(StoreError::MissingEntry(id)),
        }
    }

    /// All rows as a listing gives them, sorted.
    fn listing(&self, date: Option<Date>, members_first: bool) -> (r: Vec<RoundupRow>)
        ensures
            listed_models(r@) == sorted(self@.listing(date), members_first),
            r.len() == self@.rows.len(),
    {
        let ghost all = self@.listing(date);
        let mut out: Vec<RoundupRow> = Vec::new();
        let mut i: usize = 0;
        proof {
            assert(all.take(0) =~= Seq::empty());
            assert(listed_models(out@) =~= Seq::empty());
        }
        while i < self.rows.len()
            invariant
                i <= self.rows.len(),
                all == self@.listing(date),
                listed_models(out@) == sorted(all.take(i as int), members_first),
            decreases self.rows.len() - i,
        {
            let id = self.rows[i].id;
            let count = self.dates(Some(id)).len();
            let included = match date {
                Some(d) => self.is_member(d, id),
                None => count > 0,
            };
            let row = RoundupRow { id, included, count, entry: self.rows[i].entry.duplicate() };
            proof {
                assert(all.take(i as int + 1).drop_last() =~= all.take(i as int));
                assert(row@ == all[i as int]);
            }
            let ghost placed = listed_models(out@);
            let mut slot: usize = 0;
            while slot < out.len() && !row_precedes(&row, &out[slot], members_first)
                invariant
                    slot <= out.len(),
                    placed == listed_models(out@),
                    row_slot(placed, row@, members_first, slot as int) == row_slot(
                        placed,
                        row@,
                        members_first,
                        0,
                    ),
                decreases out.len() - slot,
            {
                proof {
                    assert(placed[slot as int] == out@[slot as int]@);
                }
                slot += 1;
            }
            proof {
                if slot < out.len() {
                    assert(placed[slot as int] == out@[slot as int]@);
                }
            }
            out.insert(slot, row);
            proof {
                assert(listed_models(out@) =~= insert_row(placed, row@, members_first));
            }
            i += 1;
        }
        proof {
            assert(all.take(i as int) =~= all);
            lemma_sorted(all, members_first);
            assert(listed_models(out@).len() == out.len());
        }
        out
    }

    /// All entries with the number of roundups that hold each, by ascending
    /// number of roundups, then by ascending source date. An entry counts as
    /// included where some roundup holds it.
    pub fn list_entries(&self) -> (r: Vec<RoundupRow>)
        ensures
            listed_models(r@) == self@.list_entries(),
            r.len() == self@.rows.len(),
    {
        self.listing(None, false)
    }

    /// All entries for the editor of the roundup of `date`: with whether the
    /// roundup holds each and with the number of roundups that hold it; those
    /// that the roundup holds first, then by ascending number of roundups,
    /// then by ascending source date.
    pub fn get_roundup(&self, date: Date) -> (r: Vec<RoundupRow>)
        ensures
            listed_models(r@) == self@.get_roundup(date),
            r.len() == self@.rows.len(),
    {
        self.listing(Some(date), true)
    }
}

/// Whether `a` must stand ahead of `b` in a listing.
fn row_precedes(a: &RoundupRow, b: &RoundupRow, members_first: bool) -> (r: bool)
    ensures
        r == precedes(a@, b@, members_first),
{
    if members_first && a.included != b.included {
        a.included
    } else if a.count != b.count {
        a.count < b.count
    } else {
        a.entry.source_date.is_before(&b.entry.source_date)
    }
}

/// Offers `entries` to the catalog in order, as one transaction: an entry
/// whose link the catalog holds already changes nothing, any other becomes a
/// new row. Returns the number of rows afterwards. Where the identifiers run
/// out the catalog is left as it was.
pub fn insert(entries: &Vec<ReadingListEntry>, db: &mut Catalog) -> (r: Result<usize, StoreError>)
    requires
        old(db).wf(),
    ensures
        final(db).wf(),
        match r {
            Ok(count) => {
                &&& final(db)@ == old(db)@.ingest(entry_models(entries@))
                &&& count == final(db)@.rows.len()
            },
            Err(e) => e == StoreError::IdsExhausted && final(db)@ == old(db)@,
        },
        r is Ok <==> old(db)@.ingest(entry_models(entries@)).last_id <= i64::MAX,
{
    let ghost offered = entry_models(entries@);
    let rows_before = db.rows.len();
    let last_before = db.last_id;
    let mut i: usize = 0;
    proof {
        assert(offered.take(0) =~= Seq::empty());
        assert(db.rows@.take(rows_before as int) =~= db.rows@);
    }
    while i < entries.len()
        invariant
            i <= entries.len(),
            offered == entry_models(entries@),
            old(db).wf(),
            db@ == old(db)@.ingest(offered.take(i as int)),
            db.wf(),
            rows_before == old(db).rows.len(),
            last_before == old(db).last_id,
            rows_before <= db.rows.len(),
            db.rows@.take(rows_before as int) == old(db).rows@,
            db.members == old(db).members,
        decreases entries.len() - i,
    {
        let entry = &entries[i];
        proof {
            lemma_ingest_next(old(db)@, offered, i as int);
            lemma_ingest_one(db@, offered[i as int]);
            lemma_ingest_prefix(old(db)@, offered, i as int + 1);
        }
        if db.find_url(&entry.url).is_none() {
            if db.last_id == i64::MAX {
                db.rows.truncate(rows_before);
                db.last_id = last_before;
                proof {
                    assert(db.rows@ =~= old(db).rows@);
                }
                return Err(StoreError::IdsExhausted);
            }
            let ghost rows_then = db.rows@;
            db.last_id = db.last_id + 1;
            db.rows.push(CatalogRow { id: db.last_id, entry: entry.duplicate() });
            proof {
                assert(db@.rows =~= old(db)@.ingest(offered.take(i as int + 1)).rows);
                assert(db.rows@.take(rows_before as int) =~= rows_then.take(rows_before as int));
            }
        }
        i += 1;
    }
    proof {
        assert(offered.take(i as int) =~= offered);
    }
    Ok(db.rows.len())
}

} // verus!
