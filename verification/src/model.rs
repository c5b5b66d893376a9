//! The catalog as a mathematical value, and what each operation makes of it.

use crate::date::Date;
use crate::entry::{EntryModel, ReadState};
use crate::order::{dates_of, sorted, ListedModel};
use vstd::prelude::*;

verus! {

/// A row of the reading list: an entry under its identifier.
pub struct RowModel {
    pub id: int,
    pub entry: EntryModel,
}

/// A membership: the entry with identifier `entry` belongs to the roundup of
/// `date`.
pub struct MemberModel {
    pub date: Date,
    pub entry: int,
}

/// The catalog: the reading list in the order of insertion, the memberships
/// in the order of insertion, and the last identifier handed out.
pub struct CatalogModel {
    pub rows: Seq<RowModel>,
    pub members: Seq<MemberModel>,
    pub last_id: int,
}

/// The empty catalog.
pub open spec fn empty_catalog() -> CatalogModel {
    CatalogModel { rows: Seq::empty(), members: Seq::empty(), last_id: 0 }
}

/// The memberships that `ids` make under `date`, in the order of `ids`.
pub open spec fn members_of(date: Date, ids: Seq<int>) -> Seq<MemberModel> {
    Seq::new(ids.len(), |i: int| MemberModel { date, entry: ids[i] })
}

impl CatalogModel {
    /// Whether some row holds `url`.
    pub open spec fn has_url(self, url: Seq<char>) -> bool {
        exists|i: int| 0 <= i < self.rows.len() && #[trigger] self.rows[i].entry.url == url
    }

    /// Whether some row has the identifier `id`.
    pub open spec fn has_id(self, id: int) -> bool {
        exists|i: int| 0 <= i < self.rows.len() && #[trigger] self.rows[i].id == id
    }

    /// The index of a row that holds `url`.
    pub open spec fn index_of_url(self, url: Seq<char>) -> int {
        choose|i: int| 0 <= i < self.rows.len() && #[trigger] self.rows[i].entry.url == url
    }

    /// The index of a row with the identifier `id`.
    pub open spec fn index_of_id(self, id: int) -> int {
        choose|i: int| 0 <= i < self.rows.len() && #[trigger] self.rows[i].id == id
    }

    /// No two rows share a link.
    pub open spec fn urls_unique(self) -> bool {
        forall|i: int, j: int|
            0 <= i < j < self.rows.len() ==> #[trigger] self.rows[i].entry.url
                != #[trigger] self.rows[j].entry.url
    }

    /// No two rows share an identifier, and none is above the last one handed
    /// out.
    pub open spec fn ids_unique(self) -> bool {
        &&& forall|i: int, j: int|
            0 <= i < j < self.rows.len() ==> #[trigger] self.rows[i].id
                != #[trigger] self.rows[j].id
        &&& forall|i: int| 0 <= i < self.rows.len() ==> #[trigger] self.rows[i].id <= self.last_id
    }

    /// The catalog's invariant: links and identifiers are unique.
    pub open spec fn wf(self) -> bool {
        self.urls_unique() && self.ids_unique()
    }

    /// Every membership names an entry of the reading list.
    pub open spec fn referential(self) -> bool {
        forall|k: int| 0 <= k < self.members.len() ==> self.has_id(#[trigger] self.members[k].entry)
    }

    /// The catalog after `entry` is offered: a new row under the next
    /// identifier, or no change where the link is already held.
    pub open spec fn ingest_one(self, entry: EntryModel) -> CatalogModel {
        if self.has_url(entry.url) {
            self
        } else {
            CatalogModel {
                rows: self.rows.push(RowModel { id: self.last_id + 1, entry }),
                members: self.members,
                last_id: self.last_id + 1,
            }
        }
    }

    /// The catalog after `entries` are offered in order.
    pub open spec fn ingest(self, entries: Seq<EntryModel>) -> CatalogModel
        decreases entries.len(),
    {
        if entries.len() == 0 {
            self
        } else {
            self.ingest(entries.drop_last()).ingest_one(entries.last())
        }
    }

    /// The catalog after the body and the read state of the entry `id` are
    /// set; nothing changes where no entry has that identifier.
    pub open spec fn update_entry(self, id: int, body_text: Seq<char>, read: ReadState)
        -> CatalogModel {
        CatalogModel {
            rows: Seq::new(
                self.rows.len(),
                |i: int|
                    if self.rows[i].id == id {
                        RowModel {
                            id,
                            entry: EntryModel { body_text, read, ..self.rows[i].entry },
                        }
                    } else {
                        self.rows[i]
                    },
            ),
            members: self.members,
            last_id: self.last_id,
        }
    }

    /// The catalog after the roundup of `date` is set to `ids`: the
    /// memberships of other dates stay, in their order, and one membership per
    /// element of `ids` follows.
    pub open spec fn set_roundup(self, date: Date, ids: Seq<int>) -> CatalogModel {
        CatalogModel {
            rows: self.rows,
            members: self.members.filter(|m: MemberModel| m.date != date) + members_of(date, ids),
            last_id: self.last_id,
        }
    }

    /// Whether the entry `id` belongs to the roundup of `date`.
    pub open spec fn is_member(self, date: Date, id: int) -> bool {
        self.members.contains(MemberModel { date, entry: id })
    }

    /// The number of memberships of the entry `id`.
    pub open spec fn membership_count(self, id: int) -> nat {
        self.members.filter(|m: MemberModel| m.entry == id).len()
    }

    /// The dates that have a roundup, each once, in ascending order.
    pub open spec fn roundups(self) -> Seq<Date> {
        dates_of(self.members, None)
    }

    /// The dates whose roundup holds the entry `id`, each once, in ascending
    /// order.
    pub open spec fn roundups_of(self, id: int) -> Seq<Date> {
        dates_of(self.members, Some(id))
    }

    /// The entry under the identifier `id` with the number of its
    /// memberships, where there is such an entry.
    pub open spec fn get_entry(self, id: int) -> Option<(EntryModel, nat)> {
        if self.has_id(id) {
            Some((self.rows[self.index_of_id(id)].entry, self.membership_count(id)))
        } else {
            None
        }
    }

    /// The row at index `i` as a listing gives it: with the number of
    /// roundups that hold the entry, and with whether it is included. For a
    /// date, an entry is included where it belongs to that date's roundup;
    /// without one, where it belongs to any roundup.
    pub open spec fn listed(self, i: int, date: Option<Date>) -> ListedModel {
        let row = self.rows[i];
        let count = self.roundups_of(row.id).len();
        ListedModel {
            id: row.id,
            included: match date {
                Some(d) => self.is_member(d, row.id),
                None => count > 0,
            },
            count,
            entry: row.entry,
        }
    }

    /// All rows as a listing gives them, in the order of insertion.
    pub open spec fn listing(self, date: Option<Date>) -> Seq<ListedModel> {
        Seq::new(self.rows.len(), |i: int| self.listed(i, date))
    }

    /// All entries, by ascending number of roundups, then by ascending source
    /// date.
    pub open spec fn list_entries(self) -> Seq<ListedModel> {
        sorted(self.listing(None), false)
    }

    /// All entries for the editor of the roundup of `date`: those that the
    /// roundup holds first, then by ascending number of roundups, then by
    /// ascending source date.
    pub open spec fn get_roundup(self, date: Date) -> Seq<ListedModel> {
        sorted(self.listing(Some(date)), true)
    }
}

/// Offering entries one more at a time: the catalog after the first `k + 1`
/// entries is the catalog after the first `k`, offered the next.
pub proof fn lemma_ingest_next(c: CatalogModel, entries: Seq<EntryModel>, k: int)
    requires
        0 <= k < entries.len(),
    ensures
        c.ingest(entries.take(k + 1)) == c.ingest(entries.take(k)).ingest_one(entries[k]),
{
    assert(entries.take(k + 1).drop_last() =~= entries.take(k));
}

/// Offering an entry keeps the invariant, keeps every row and membership, and
/// holds the entry's link afterwards.
pub proof fn lemma_ingest_one(c: CatalogModel, entry: EntryModel)
    requires
        c.wf(),
    ensures
        c.ingest_one(entry).wf(),
        c.ingest_one(entry).has_url(entry.url),
        c.ingest_one(entry).last_id >= c.last_id,
        c.ingest_one(entry).members == c.members,
        c.ingest_one(entry).rows.len() >= c.rows.len(),
        c.ingest_one(entry).rows.take(c.rows.len() as int) == c.rows,
        forall|url: Seq<char>| c.has_url(url) ==> c.ingest_one(entry).has_url(url),
        forall|id: int| c.has_id(id) ==> c.ingest_one(entry).has_id(id),
{
    let after = c.ingest_one(entry);
    if c.has_url(entry.url) {
        assert(c.rows.take(c.rows.len() as int) =~= c.rows);
    } else {
        assert(after.rows.take(c.rows.len() as int) =~= c.rows);
        assert(after.rows[c.rows.len() as int].entry.url == entry.url);
        assert forall|url: Seq<char>| c.has_url(url) implies after.has_url(url) by {
            let i = c.index_of_url(url);
            assert(after.rows[i].entry.url == url);
        }
        assert forall|id: int| c.has_id(id) implies after.has_id(id) by {
            let i = c.index_of_id(id);
            assert(after.rows[i].id == id);
        }
        assert forall|i: int, j: int| 0 <= i < j < after.rows.len()
            implies #[trigger] after.rows[i].entry.url
            != #[trigger] after.rows[j].entry.url by {
            if j == c.rows.len() {
                assert(c.rows[i].entry.url != entry.url);
            }
        }
    }
}

/// Offering entries keeps the invariant, keeps every row and membership, and
/// holds each offered link afterwards.
pub proof fn lemma_ingest(c: CatalogModel, entries: Seq<EntryModel>)
    requires
        c.wf(),
    ensures
        c.ingest(entries).wf(),
        c.ingest(entries).last_id >= c.last_id,
        c.ingest(entries).members == c.members,
        c.ingest(entries).rows.len() >= c.rows.len(),
        c.ingest(entries).rows.take(c.rows.len() as int) == c.rows,
        forall|url: Seq<char>| c.has_url(url) ==> c.ingest(entries).has_url(url),
        forall|id: int| c.has_id(id) ==> c.ingest(entries).has_id(id),
        forall|k: int| 0 <= k < entries.len()
            ==> c.ingest(entries).has_url(#[trigger] entries[k].url),
    decreases entries.len(),
{
    if entries.len() == 0 {
        assert(c.rows.take(c.rows.len() as int) =~= c.rows);
    } else {
        let before = c.ingest(entries.drop_last());
        lemma_ingest(c, entries.drop_last());
        lemma_ingest_one(before, entries.last());
        let after = c.ingest(entries);
        assert(after.rows.take(c.rows.len() as int) =~= before.rows.take(c.rows.len() as int));
        assert forall|k: int| 0 <= k < entries.len()
            implies after.has_url(#[trigger] entries[k].url) by {
            if k < entries.len() - 1 {
                assert(entries.drop_last()[k] == entries[k]);
            }
        }
    }
}

/// The last identifier only grows as more entries are offered.
pub proof fn lemma_ingest_prefix(c: CatalogModel, entries: Seq<EntryModel>, k: int)
    requires
        c.wf(),
        0 <= k <= entries.len(),
    ensures
        c.ingest(entries.take(k)).last_id <= c.ingest(entries).last_id,
    decreases entries.len(),
{
    if k == entries.len() {
        assert(entries.take(k) =~= entries);
    } else {
        assert(entries.drop_last().take(k) =~= entries.take(k));
        lemma_ingest_prefix(c, entries.drop_last(), k);
        lemma_ingest(c, entries.drop_last());
        lemma_ingest_one(c.ingest(entries.drop_last()), entries.last());
    }
}

} // verus!
