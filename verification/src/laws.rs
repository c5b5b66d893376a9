//! What holds of the catalog whatever is done to it.

use crate::date::Date;
use crate::entry::{EntryModel, ReadState};
use crate::model::{lemma_ingest, lemma_ingest_one, members_of, CatalogModel, MemberModel};
use crate::order::{ascending, lemma_dates_of, lemma_sorted, lemma_sorted_contains, ordered};
use vstd::prelude::*;

verus! {

/// A filter keeps a list whose elements all pass.
pub proof fn lemma_filter_keeps_all<A>(s: Seq<A>, pred: spec_fn(A) -> bool)
    requires
        forall|i: int| 0 <= i < s.len() ==> pred(#[trigger] s[i]),
    ensures
        s.filter(pred) == s,
    decreases s.len(),
{
    reveal(Seq::filter);
    if s.len() > 0 {
        lemma_filter_keeps_all(s.drop_last(), pred);
        assert(s.drop_last().push(s.last()) =~= s);
    }
}

/// A filter empties a list none of whose elements pass.
pub proof fn lemma_filter_drops_all<A>(s: Seq<A>, pred: spec_fn(A) -> bool)
    requires
        forall|i: int| 0 <= i < s.len() ==> !pred(#[trigger] s[i]),
    ensures
        s.filter(pred) == Seq::<A>::empty(),
    decreases s.len(),
{
    reveal(Seq::filter);
    if s.len() > 0 {
        lemma_filter_drops_all(s.drop_last(), pred);
    }
}

/// Links stay unique: offering entries, updating an entry and setting a
/// roundup each keep the catalog's invariant.
pub proof fn law_urls_stay_unique(
    c: CatalogModel,
    entries: Seq<EntryModel>,
    id: int,
    body_text: Seq<char>,
    read: ReadState,
    date: Date,
    ids: Seq<int>,
)
    requires
        c.wf(),
    ensures
        c.ingest(entries).wf(),
        c.update_entry(id, body_text, read).wf(),
        c.set_roundup(date, ids).wf(),
{
    lemma_ingest(c, entries);
}

/// Memberships keep naming entries: offering entries and updating an entry
/// keep every membership's entry in the reading list, and so does setting a
/// roundup to identifiers that name entries.
pub proof fn law_memberships_name_entries(
    c: CatalogModel,
    entries: Seq<EntryModel>,
    id: int,
    body_text: Seq<char>,
    read: ReadState,
    date: Date,
    ids: Seq<int>,
)
    requires
        c.wf(),
        c.referential(),
    ensures
        c.ingest(entries).referential(),
        c.update_entry(id, body_text, read).referential(),
        (forall|i: int| 0 <= i < ids.len() ==> c.has_id(#[trigger] ids[i])) ==> c.set_roundup(
            date,
            ids,
        ).referential(),
{
    lemma_ingest(c, entries);
    let updated = c.update_entry(id, body_text, read);
    assert forall|k: int| 0 <= k < updated.members.len() implies updated.has_id(
        #[trigger] updated.members[k].entry,
    ) by {
        let i = c.index_of_id(c.members[k].entry);
        assert(c.has_id(c.members[k].entry));
        assert(updated.rows[i].id == c.members[k].entry);
    }
    if forall|i: int| 0 <= i < ids.len() ==> c.has_id(#[trigger] ids[i]) {
        let after = c.set_roundup(date, ids);
        let keep = |m: MemberModel| m.date != date;
        let kept = c.members.filter(keep);
        assert forall|k: int| 0 <= k < after.members.len() implies after.has_id(
            #[trigger] after.members[k].entry,
        ) by {
            if k < kept.len() {
                assert(kept.contains(kept[k]));
                c.members.lemma_filter_contains_rev(keep, kept[k]);
                let j = choose|j: int| 0 <= j < c.members.len() && c.members[j] == kept[k];
                assert(c.has_id(c.members[j].entry));
            } else {
                assert(after.members[k] == members_of(date, ids)[k - kept.len()]);
                assert(c.has_id(ids[k - kept.len()]));
            }
        }
    }
}

/// After the roundup of a date is set to `ids`, an entry belongs to that
/// date's roundup exactly where `ids` holds its identifier, and the editor's
/// listing for the date marks as included exactly the entries that `ids`
/// names.
pub proof fn law_roundup_reports_what_was_set(c: CatalogModel, date: Date, ids: Seq<int>)
    ensures
        forall|id: int| #[trigger] c.set_roundup(date, ids).is_member(date, id)
            <==> ids.contains(id),
        forall|k: int|
            0 <= k < c.set_roundup(date, ids).get_roundup(date).len() ==> (#[trigger] c.set_roundup(
                date,
                ids,
            ).get_roundup(date)[k]).included == ids.contains(
                c.set_roundup(date, ids).get_roundup(date)[k].id,
            ),
        forall|id: int|
            ids.contains(id) && c.has_id(id) ==> exists|k: int|
                0 <= k < c.set_roundup(date, ids).get_roundup(date).len()
                    && (#[trigger] c.set_roundup(
                    date,
                    ids,
                ).get_roundup(date)[k]).id == id && c.set_roundup(date, ids).get_roundup(
                    date,
                )[k].included,
{
    let after = c.set_roundup(date, ids);
    let keep = |m: MemberModel| m.date != date;
    let kept = c.members.filter(keep);
    let added = members_of(date, ids);
    assert forall|id: int| #[trigger] after.is_member(date, id) <==> ids.contains(id) by {
        let wanted = MemberModel { date, entry: id };
        if after.is_member(date, id) {
            let k = choose|k: int| 0 <= k < after.members.len() && after.members[k] == wanted;
            if k < kept.len() {
                c.members.lemma_filter_pred(keep, k);
                assert(keep(kept[k]));
            } else {
                assert(added[k - kept.len()] == wanted);
                assert(ids[k - kept.len()] == id);
            }
        }
        if ids.contains(id) {
            let i = choose|i: int| 0 <= i < ids.len() && ids[i] == id;
            assert(after.members[kept.len() + i] == wanted);
        }
    }
    let listing = after.listing(Some(date));
    let shown = after.get_roundup(date);
    assert forall|k: int| 0 <= k < shown.len() implies (#[trigger] shown[k]).included
        == ids.contains(
        shown[k].id,
    ) by {
        lemma_sorted_contains(listing, true, shown[k]);
        assert(shown.contains(shown[k]));
        let i = choose|i: int| 0 <= i < listing.len() && listing[i] == shown[k];
        assert(listing[i].included == after.is_member(date, listing[i].id));
    }
    assert forall|id: int| ids.contains(id) && c.has_id(id) implies exists|k: int|
        0 <= k < shown.len() && (#[trigger] shown[k]).id == id && shown[k].included by {
        let i = c.index_of_id(id);
        assert(after.rows[i].id == id);
        assert(listing[i].id == id);
        assert(after.is_member(date, id));
        assert(listing[i].included);
        assert(listing.contains(listing[i]));
        lemma_sorted_contains(listing, true, listing[i]);
        let k = choose|k: int| 0 <= k < shown.len() && shown[k] == listing[i];
        assert(shown[k].id == id && shown[k].included);
    }
}

/// Offering entries whose links the catalog holds already changes nothing.
pub proof fn lemma_ingest_known(c: CatalogModel, entries: Seq<EntryModel>)
    requires
        forall|k: int| 0 <= k < entries.len() ==> c.has_url(#[trigger] entries[k].url),
    ensures
        c.ingest(entries) == c,
    decreases entries.len(),
{
    if entries.len() > 0 {
        assert forall|k: int| 0 <= k < entries.drop_last().len() implies c.has_url(
            #[trigger] entries.drop_last()[k].url,
        ) by {
            assert(entries.drop_last()[k] == entries[k]);
        }
        lemma_ingest_known(c, entries.drop_last());
        assert(c.has_url(entries[entries.len() - 1].url));
    }
}

/// Offering the same entries a second time changes nothing.
pub proof fn law_ingest_twice_is_once(c: CatalogModel, entries: Seq<EntryModel>)
    requires
        c.wf(),
    ensures
        c.ingest(entries).ingest(entries) == c.ingest(entries),
{
    lemma_ingest(c, entries);
    lemma_ingest_known(c.ingest(entries), entries);
}

/// Offering no entries changes nothing, and the number of rows stays.
pub proof fn law_ingest_nothing(c: CatalogModel)
    ensures
        c.ingest(Seq::empty()) == c,
{
}

/// Offering two lists of entries one after the other is offering them as
/// one list.
pub proof fn law_ingest_in_batches(c: CatalogModel, first: Seq<EntryModel>, second: Seq<EntryModel>)
    ensures
        c.ingest(first).ingest(second) == c.ingest(first + second),
    decreases second.len(),
{
    if second.len() == 0 {
        assert(first + second =~= first);
    } else {
        law_ingest_in_batches(c, first, second.drop_last());
        assert((first + second).drop_last() =~= first + second.drop_last());
        assert((first + second).last() == second.last());
    }
}

/// Setting a roundup a second time to the same identifiers changes nothing.
pub proof fn law_set_roundup_twice_is_once(c: CatalogModel, date: Date, ids: Seq<int>)
    ensures
        c.set_roundup(date, ids).set_roundup(date, ids) == c.set_roundup(date, ids),
{
    let keep = |m: MemberModel| m.date != date;
    let kept = c.members.filter(keep);
    let added = members_of(date, ids);
    Seq::filter_distributes_over_add(kept, added, keep);
    assert forall|i: int| 0 <= i < kept.len() implies keep(#[trigger] kept[i]) by {
        c.members.lemma_filter_pred(keep, i);
    }
    lemma_filter_keeps_all(kept, keep);
    lemma_filter_drops_all(added, keep);
    assert(kept + Seq::<MemberModel>::empty() =~= kept);
    assert(c.set_roundup(date, ids).set_roundup(date, ids).members =~= c.set_roundup(
        date,
        ids,
    ).members);
}

/// Setting a roundup replaces what the date held before: whatever the date's
/// roundup was set to first, the second setting alone decides.
pub proof fn law_set_roundup_replaces(
    c: CatalogModel,
    date: Date,
    first: Seq<int>,
    second: Seq<int>,
)
    ensures
        c.set_roundup(date, first).set_roundup(date, second) == c.set_roundup(date, second),
{
    let keep = |m: MemberModel| m.date != date;
    let kept = c.members.filter(keep);
    let added = members_of(date, first);
    Seq::filter_distributes_over_add(kept, added, keep);
    assert forall|i: int| 0 <= i < kept.len() implies keep(#[trigger] kept[i]) by {
        c.members.lemma_filter_pred(keep, i);
    }
    lemma_filter_keeps_all(kept, keep);
    lemma_filter_drops_all(added, keep);
    assert(kept + Seq::<MemberModel>::empty() =~= kept);
    assert(c.set_roundup(date, first).set_roundup(date, second).members =~= c.set_roundup(
        date,
        second,
    ).members);
}

/// Updating an entry that the catalog does not hold changes nothing.
pub proof fn law_update_of_missing_entry(
    c: CatalogModel,
    id: int,
    body_text: Seq<char>,
    read: ReadState,
)
    requires
        !c.has_id(id),
    ensures
        c.update_entry(id, body_text, read) == c,
{
    assert(c.update_entry(id, body_text, read).rows =~= c.rows);
}

/// Updating an entry changes its body and its read state and nothing else:
/// every row keeps its identifier, link, original text and source date.
pub proof fn law_update_keeps_the_rest(
    c: CatalogModel,
    id: int,
    body_text: Seq<char>,
    read: ReadState,
)
    ensures
        c.update_entry(id, body_text, read).rows.len() == c.rows.len(),
        forall|i: int|
            0 <= i < c.rows.len() ==> {
                let before = #[trigger] c.rows[i];
                let after = c.update_entry(id, body_text, read).rows[i];
                &&& after.id == before.id
                &&& after.entry.url == before.entry.url
                &&& after.entry.original_text == before.entry.original_text
                &&& after.entry.source_date == before.entry.source_date
                &&& before.id == id ==> after.entry.body_text == body_text && after.entry.read
                    == read
                &&& before.id != id ==> after == before
            },
{
}

/// Whether some row of the catalog holds exactly the entry `e`.
pub open spec fn holds(c: CatalogModel, e: EntryModel) -> bool {
    exists|i: int| 0 <= i < c.rows.len() && (#[trigger] c.rows[i]).entry == e
}

/// The links of a list of entries, in order.
pub open spec fn entry_urls(entries: Seq<EntryModel>) -> Seq<Seq<char>> {
    Seq::new(entries.len(), |i: int| entries[i].url)
}

/// The links of the rows, in order.
pub open spec fn row_urls(c: CatalogModel) -> Seq<Seq<char>> {
    Seq::new(c.rows.len(), |i: int| c.rows[i].entry.url)
}

/// Entries of the list that share a link are the same entry.
pub open spec fn one_entry_per_url(entries: Seq<EntryModel>) -> bool {
    forall|i: int, j: int|
        0 <= i < entries.len() && 0 <= j < entries.len() && (#[trigger] entries[i]).url == (
        #[trigger] entries[j]).url ==> entries[i] == entries[j]
}

/// What the catalog holds after entries were offered, where entries that
/// share a link are the same entry: what it held, and each offered entry
/// whose link it did not hold.
pub proof fn lemma_ingest_holds(c: CatalogModel, entries: Seq<EntryModel>)
    requires
        c.wf(),
        one_entry_per_url(entries),
    ensures
        forall|e: EntryModel| #[trigger]
            holds(c.ingest(entries), e) <==> holds(c, e) || (!c.has_url(e.url) && entries.contains(
                e,
            )),
        forall|url: Seq<char>| #[trigger]
            c.ingest(entries).has_url(url) <==> c.has_url(url) || entry_urls(entries).contains(url),
    decreases entries.len(),
{
    let after = c.ingest(entries);
    if entries.len() == 0 {
        assert forall|url: Seq<char>| !(#[trigger] entry_urls(entries).contains(url)) by {}
        assert forall|e: EntryModel| !(#[trigger] entries.contains(e)) by {}
    } else {
        let front = entries.drop_last();
        let last = entries.last();
        let before = c.ingest(front);
        assert(one_entry_per_url(front)) by {
            assert forall|i: int, j: int|
                0 <= i < front.len() && 0 <= j < front.len() && (#[trigger] front[i]).url == (
                #[trigger] front[j]).url implies front[i] == front[j] by {
                assert(front[i] == entries[i] && front[j] == entries[j]);
            }
        }
        lemma_ingest_holds(c, front);
        lemma_ingest(c, front);
        lemma_ingest_one(before, last);
        assert forall|url: Seq<char>| #[trigger]
            after.has_url(url) <==> c.has_url(url) || entry_urls(entries).contains(url) by {
            if entry_urls(entries).contains(url) {
                let k = choose|k: int|
                    0 <= k < entry_urls(entries).len() && entry_urls(entries)[k] == url;
                if k < front.len() {
                    assert(entry_urls(front)[k] == url);
                    assert(before.has_url(url));
                }
            }
            if after.has_url(url) && !c.has_url(url) {
                if before.has_url(url) {
                    let k = choose|k: int| 0 <= k < entry_urls(front).len()
                        && entry_urls(front)[k] == url;
                    assert(entry_urls(entries)[k] == url);
                } else {
                    let i = after.index_of_url(url);
                    if i < before.rows.len() {
                        assert(before.rows[i].entry.url == url);
                    }
                    assert(entry_urls(entries)[entries.len() - 1] == url);
                }
            }
        }
        assert forall|e: EntryModel| #[trigger]
            holds(after, e) <==> holds(c, e) || (!c.has_url(e.url) && entries.contains(e)) by {
            if front.contains(e) {
                let k = choose|k: int| 0 <= k < front.len() && front[k] == e;
                assert(entries[k] == e);
            }
            if entries.contains(e) && e != last {
                let k = choose|k: int| 0 <= k < entries.len() && entries[k] == e;
                assert(front[k] == e);
            }
            assert(entries[entries.len() - 1] == last);
            if before.has_url(last.url) {
                if e == last && !c.has_url(e.url) {
                    let i = before.index_of_url(last.url);
                    let held = before.rows[i].entry;
                    assert(holds(before, held));
                    if holds(c, held) {
                        let j = choose|j: int| 0 <= j < c.rows.len()
                            && (#[trigger] c.rows[j]).entry == held;
                        assert(c.rows[j].entry.url == last.url);
                    }
                    assert(front.contains(held));
                    let k = choose|k: int| 0 <= k < front.len() && front[k] == held;
                    assert(entries[k] == held);
                    assert(held == last);
                }
            } else {
                if holds(after, e) {
                    let i = choose|i: int| 0 <= i < after.rows.len()
                        && (#[trigger] after.rows[i]).entry == e;
                    if i < before.rows.len() {
                        assert(before.rows[i].entry == e);
                    }
                }
                if holds(before, e) {
                    let i = choose|i: int| 0 <= i < before.rows.len()
                        && (#[trigger] before.rows[i]).entry == e;
                    assert(after.rows[i].entry == e);
                }
                if e == last {
                    assert(after.rows[before.rows.len() as int].entry == e);
                }
            }
        }
    }
}

/// The order in which entries are offered does not matter: two lists of
/// entries with the same links, each as often, in which entries that share
/// a link are the same entry, leave the same entries in the reading list,
/// and as many rows.
pub proof fn law_ingest_order_is_immaterial(c: CatalogModel, a: Seq<EntryModel>, b: Seq<EntryModel>)
    requires
        c.wf(),
        entry_urls(a).to_multiset() == entry_urls(b).to_multiset(),
        one_entry_per_url(a + b),
    ensures
        forall|e: EntryModel| #[trigger] holds(c.ingest(a), e) <==> holds(c.ingest(b), e),
        c.ingest(a).rows.len() == c.ingest(b).rows.len(),
{
    let both = a + b;
    assert(one_entry_per_url(a)) by {
        assert forall|i: int, j: int|
            0 <= i < a.len() && 0 <= j < a.len() && (#[trigger] a[i]).url
                == (#[trigger] a[j]).url implies a[i]
            == a[j] by {
            assert(both[i] == a[i] && both[j] == a[j]);
        }
    }
    assert(one_entry_per_url(b)) by {
        assert forall|i: int, j: int|
            0 <= i < b.len() && 0 <= j < b.len() && (#[trigger] b[i]).url
                == (#[trigger] b[j]).url implies b[i]
            == b[j] by {
            assert(both[a.len() + i] == b[i] && both[a.len() + j] == b[j]);
        }
    }
    lemma_ingest_holds(c, a);
    lemma_ingest_holds(c, b);
    lemma_ingest(c, a);
    lemma_ingest(c, b);
    assert forall|url: Seq<char>| entry_urls(a).contains(url) <==> entry_urls(b).contains(url) by {
        vstd::seq_lib::to_multiset_contains(entry_urls(a), url);
        vstd::seq_lib::to_multiset_contains(entry_urls(b), url);
    }
    assert forall|e: EntryModel| a.contains(e) <==> b.contains(e) by {
        if a.contains(e) {
            let i = choose|i: int| 0 <= i < a.len() && a[i] == e;
            assert(entry_urls(a)[i] == e.url);
            assert(entry_urls(b).contains(e.url));
            let j = choose|j: int| 0 <= j < entry_urls(b).len() && entry_urls(b)[j] == e.url;
            assert(both[i] == a[i] && both[a.len() + j] == b[j]);
            assert(b[j] == e);
        }
        if b.contains(e) {
            let j = choose|j: int| 0 <= j < b.len() && b[j] == e;
            assert(entry_urls(b)[j] == e.url);
            assert(entry_urls(a).contains(e.url));
            let i = choose|i: int| 0 <= i < entry_urls(a).len() && entry_urls(a)[i] == e.url;
            assert(both[i] == a[i] && both[a.len() + j] == b[j]);
            assert(a[i] == e);
        }
    }
    let after_a = c.ingest(a);
    let after_b = c.ingest(b);
    assert(row_urls(after_a).no_duplicates());
    assert(row_urls(after_b).no_duplicates());
    assert(row_urls(after_a).to_set() =~= row_urls(after_b).to_set()) by {
        assert forall|url: Seq<char>| row_urls(after_a).contains(url)
            <==> row_urls(after_b).contains(
            url,
        ) by {
            if row_urls(after_a).contains(url) {
                let i = choose|i: int| 0 <= i < row_urls(after_a).len()
                    && row_urls(after_a)[i] == url;
                assert(after_a.rows[i].entry.url == url);
                assert(after_a.has_url(url));
                assert(c.has_url(url) || entry_urls(a).contains(url));
                assert(c.has_url(url) || entry_urls(b).contains(url));
                assert(after_b.has_url(url));
                let j = after_b.index_of_url(url);
                assert(row_urls(after_b)[j] == url);
            }
            if row_urls(after_b).contains(url) {
                let i = choose|i: int| 0 <= i < row_urls(after_b).len()
                    && row_urls(after_b)[i] == url;
                assert(after_b.rows[i].entry.url == url);
                assert(after_b.has_url(url));
                assert(c.has_url(url) || entry_urls(b).contains(url));
                assert(c.has_url(url) || entry_urls(a).contains(url));
                assert(after_a.has_url(url));
                let j = after_a.index_of_url(url);
                assert(row_urls(after_a)[j] == url);
            }
        }
    }
    row_urls(after_a).unique_seq_to_set();
    row_urls(after_b).unique_seq_to_set();
}

/// The catalog after a run of calls, each of which offers a list of
/// entries.
pub open spec fn ingest_calls(c: CatalogModel, calls: Seq<Seq<EntryModel>>) -> CatalogModel
    decreases calls.len(),
{
    if calls.len() == 0 {
        c
    } else {
        ingest_calls(c, calls.drop_last()).ingest(calls.last())
    }
}

/// All entries that a run of calls offers, in order.
pub open spec fn offered(calls: Seq<Seq<EntryModel>>) -> Seq<EntryModel>
    decreases calls.len(),
{
    if calls.len() == 0 {
        Seq::empty()
    } else {
        offered(calls.drop_last()) + calls.last()
    }
}

/// A run of calls is one call that offers all their entries in order.
pub proof fn law_calls_are_one_call(c: CatalogModel, calls: Seq<Seq<EntryModel>>)
    ensures
        ingest_calls(c, calls) == c.ingest(offered(calls)),
    decreases calls.len(),
{
    if calls.len() > 0 {
        law_calls_are_one_call(c, calls.drop_last());
        law_ingest_in_batches(c, offered(calls.drop_last()), calls.last());
    }
}

/// Two runs of calls that offer the same links, each as often, and in which
/// entries that share a link are the same entry, leave the same entries in
/// the reading list, and as many rows: neither the order of the entries
/// nor their spread over the calls matters.
pub proof fn law_runs_of_calls_agree(
    c: CatalogModel,
    a: Seq<Seq<EntryModel>>,
    b: Seq<Seq<EntryModel>>,
)
    requires
        c.wf(),
        entry_urls(offered(a)).to_multiset() == entry_urls(offered(b)).to_multiset(),
        one_entry_per_url(offered(a) + offered(b)),
    ensures
        forall|e: EntryModel| #[trigger] holds(ingest_calls(c, a), e)
            <==> holds(ingest_calls(c, b), e),
        ingest_calls(c, a).rows.len() == ingest_calls(c, b).rows.len(),
{
    law_calls_are_one_call(c, a);
    law_calls_are_one_call(c, b);
    law_ingest_order_is_immaterial(c, offered(a), offered(b));
}

/// Offering entries never changes or removes a row: the rows that the
/// catalog held stay where they were, with their identifiers.
pub proof fn law_ingest_keeps_rows(c: CatalogModel, entries: Seq<EntryModel>)
    requires
        c.wf(),
    ensures
        c.ingest(entries).rows.len() >= c.rows.len(),
        forall|i: int| 0 <= i < c.rows.len() ==> #[trigger] c.ingest(entries).rows[i] == c.rows[i],
        c.ingest(entries).members == c.members,
{
    lemma_ingest(c, entries);
    assert forall|i: int| 0 <= i < c.rows.len() implies #[trigger] c.ingest(entries).rows[i]
        == c.rows[i] by {
        assert(c.ingest(entries).rows.take(c.rows.len() as int)[i] == c.rows[i]);
    }
}

/// The listed dates are in ascending order without repeats, and they are
/// the dates that have a membership: of any entry for the list of all
/// roundups, of the entry `id` for the list of its roundups.
pub proof fn law_roundup_dates(c: CatalogModel, id: int)
    ensures
        ascending(c.roundups()),
        forall|d: Date| #[trigger]
            c.roundups().contains(d) <==> exists|k: int|
                0 <= k < c.members.len() && (#[trigger] c.members[k]).date == d,
        ascending(c.roundups_of(id)),
        forall|d: Date| #[trigger] c.roundups_of(id).contains(d) <==> c.is_member(d, id),
{
    lemma_dates_of(c.members, None);
    lemma_dates_of(c.members, Some(id));
    assert forall|d: Date| #[trigger] c.roundups_of(id).contains(d) <==> c.is_member(d, id) by {
        if c.roundups_of(id).contains(d) {
            let k = choose|k: int|
                0 <= k < c.members.len() && (#[trigger] c.members[k]).date == d && Some(id) == Some(
                    c.members[k].entry,
                );
            assert(c.members[k] == MemberModel { date: d, entry: id });
        }
        if c.is_member(d, id) {
            let k = choose|k: int|
                0 <= k < c.members.len() && c.members[k] == (MemberModel { date: d, entry: id });
            assert(c.members[k].date == d && c.members[k].entry == id);
        }
    }
}

/// The listings hold every row of the reading list once, in order: no row
/// stands behind one that it must precede, and in the editor's listing no
/// included row stands behind one that is not included.
pub proof fn law_listings_are_sorted_and_complete(c: CatalogModel, date: Date)
    ensures
        ordered(c.list_entries(), false),
        c.list_entries().to_multiset() == c.listing(None).to_multiset(),
        c.list_entries().len() == c.rows.len(),
        ordered(c.get_roundup(date), true),
        c.get_roundup(date).to_multiset() == c.listing(Some(date)).to_multiset(),
        c.get_roundup(date).len() == c.rows.len(),
        forall|i: int, j: int|
            0 <= i < j < c.get_roundup(date).len() && (#[trigger] c.get_roundup(date)[j]).included
                ==> (#[trigger] c.get_roundup(date)[i]).included,
{
    lemma_sorted(c.listing(None), false);
    lemma_sorted(c.listing(Some(date)), true);
}

/// A filter keeps a list free of repeats.
pub proof fn lemma_filter_keeps_distinct<A>(s: Seq<A>, pred: spec_fn(A) -> bool)
    requires
        s.no_duplicates(),
    ensures
        s.filter(pred).no_duplicates(),
    decreases s.len(),
{
    reveal(Seq::filter);
    if s.len() > 0 {
        let front = s.drop_last();
        assert(front.no_duplicates()) by {
            assert forall|i: int, j: int| 0 <= i < front.len() && 0 <= j < front.len() && i
                != j implies front[i]
                != front[j] by {
                assert(front[i] == s[i] && front[j] == s[j]);
            }
        }
        lemma_filter_keeps_distinct(front, pred);
        if pred(s.last()) {
            let kept = front.filter(pred);
            if kept.contains(s.last()) {
                front.lemma_filter_contains_rev(pred, s.last());
                let i = choose|i: int| 0 <= i < front.len() && front[i] == s.last();
                assert(s[i] == s[s.len() - 1]);
            }
            assert forall|i: int, j: int|
                0 <= i < kept.push(s.last()).len() && 0 <= j < kept.push(s.last()).len() && i
                    != j implies kept.push(s.last())[i] != kept.push(s.last())[j] by {
                if i < kept.len() {
                    assert(kept.contains(kept[i]));
                }
                if j < kept.len() {
                    assert(kept.contains(kept[j]));
                }
            }
        }
    }
}

/// No membership stands twice as long as the editor names no entry twice:
/// setting a roundup to identifiers without repeats keeps the memberships
/// free of repeats.
pub proof fn law_memberships_stay_distinct(c: CatalogModel, date: Date, ids: Seq<int>)
    requires
        c.members.no_duplicates(),
        ids.no_duplicates(),
    ensures
        c.set_roundup(date, ids).members.no_duplicates(),
{
    let keep = |m: MemberModel| m.date != date;
    let kept = c.members.filter(keep);
    let added = members_of(date, ids);
    lemma_filter_keeps_distinct(c.members, keep);
    assert(added.no_duplicates()) by {
        assert forall|i: int, j: int| 0 <= i < added.len() && 0 <= j < added.len() && i
            != j implies added[i]
            != added[j] by {
            assert(ids[i] != ids[j]);
        }
    }
    assert forall|i: int, j: int| 0 <= i < kept.len() && 0 <= j < added.len() implies kept[i]
        != added[j] by {
        c.members.lemma_filter_pred(keep, i);
    }
    vstd::seq_lib::lemma_no_dup_in_concat(kept, added);
}

} // verus!
