//! Ordered lists: roundup dates without repeats, and listed rows by their
//! sort key.

use crate::date::Date;
use crate::entry::EntryModel;
use crate::model::MemberModel;
use vstd::prelude::*;

verus! {

/// The first index from `from` on whose date is not before `date`; the length
/// where there is none.
pub open spec fn date_slot(dates: Seq<Date>, date: Date, from: int) -> int
    decreases dates.len() - from,
{
    if 0 <= from < dates.len() && dates[from].before(date) {
        date_slot(dates, date, from + 1)
    } else {
        from
    }
}

/// `dates` with `date` put in at its slot, unless it stands there already.
pub open spec fn insert_date(dates: Seq<Date>, date: Date) -> Seq<Date> {
    let slot = date_slot(dates, date, 0);
    if slot < dates.len() && dates[slot] == date {
        dates
    } else {
        dates.insert(slot, date)
    }
}

/// The dates of `members`, each once, in ascending order. With `only` given,
/// the memberships of that entry alone count.
pub open spec fn dates_of(members: Seq<MemberModel>, only: Option<int>) -> Seq<Date>
    decreases members.len(),
{
    if members.len() == 0 {
        Seq::empty()
    } else {
        let earlier = dates_of(members.drop_last(), only);
        if only is None || only == Some(members.last().entry) {
            insert_date(earlier, members.last().date)
        } else {
            earlier
        }
    }
}

/// Each date is before the next.
pub open spec fn ascending(dates: Seq<Date>) -> bool {
    forall|i: int, j: int| 0 <= i < j < dates.len()
        ==> (#[trigger] dates[i]).before(#[trigger] dates[j])
}

/// The slot of a date lies within the list; all dates ahead of it are
/// before the date, and the one at the slot is not.
pub proof fn lemma_date_slot(dates: Seq<Date>, date: Date, from: int)
    requires
        0 <= from <= dates.len(),
    ensures
        from <= date_slot(dates, date, from) <= dates.len(),
        forall|k: int| from <= k < date_slot(dates, date, from)
            ==> (#[trigger] dates[k]).before(date),
        date_slot(dates, date, from) < dates.len() ==> !dates[date_slot(dates, date, from)].before(
            date,
        ),
    decreases dates.len() - from,
{
    if from < dates.len() && dates[from].before(date) {
        lemma_date_slot(dates, date, from + 1);
    }
}

/// Putting a date into an ascending list keeps it ascending and adds
/// nothing but that date.
pub proof fn lemma_insert_date(dates: Seq<Date>, date: Date)
    requires
        ascending(dates),
    ensures
        ascending(insert_date(dates, date)),
        forall|d: Date| #[trigger] insert_date(dates, date).contains(d)
            <==> (dates.contains(d) || d == date),
{
    let slot = date_slot(dates, date, 0);
    lemma_date_slot(dates, date, 0);
    let after = insert_date(dates, date);
    if slot < dates.len() && dates[slot] == date {
        assert forall|d: Date| #[trigger] after.contains(d) <==> (dates.contains(d) || d
            == date) by {
            if d == date {
                assert(dates[slot] == d);
            }
        }
    } else {
        assert forall|i: int, j: int| 0 <= i < j < after.len() implies (#[trigger] after[i]).before(
            #[trigger] after[j],
        ) by {
            if j < slot {
                assert(after[i] == dates[i] && after[j] == dates[j]);
            } else if j == slot {
                assert(after[i] == dates[i]);
            } else if i < slot {
                assert(after[i] == dates[i] && after[j] == dates[j - 1]);
                if j - 1 > slot {
                    assert(dates[slot].before(dates[j - 1]));
                }
            } else if i == slot {
                assert(after[j] == dates[j - 1]);
                if j - 1 > slot {
                    assert(dates[slot].before(dates[j - 1]));
                }
            } else {
                assert(after[i] == dates[i - 1] && after[j] == dates[j - 1]);
            }
        }
        assert forall|d: Date| #[trigger] after.contains(d) <==> (dates.contains(d) || d
            == date) by {
            if after.contains(d) {
                let k = choose|k: int| 0 <= k < after.len() && after[k] == d;
                if k < slot {
                    assert(dates[k] == d);
                } else if k > slot {
                    assert(dates[k - 1] == d);
                }
            }
            if dates.contains(d) {
                let k = choose|k: int| 0 <= k < dates.len() && dates[k] == d;
                if k < slot {
                    assert(after[k] == d);
                } else {
                    assert(after[k + 1] == d);
                }
            }
            if d == date {
                assert(after[slot] == d);
            }
        }
    }
}

/// The dates of a list of memberships are ascending, and they are the dates
/// of the memberships that count.
pub proof fn lemma_dates_of(members: Seq<MemberModel>, only: Option<int>)
    ensures
        ascending(dates_of(members, only)),
        forall|d: Date| #[trigger]
            dates_of(members, only).contains(d) <==> exists|k: int|
                0 <= k < members.len() && (#[trigger] members[k]).date == d && (only is None || only
                    == Some(members[k].entry)),
    decreases members.len(),
{
    let dates = dates_of(members, only);
    if members.len() == 0 {
        assert forall|d: Date| !(#[trigger] dates.contains(d)) by {}
    } else {
        let earlier = dates_of(members.drop_last(), only);
        let last = members.last();
        lemma_dates_of(members.drop_last(), only);
        let counts = only is None || only == Some(last.entry);
        if counts {
            lemma_insert_date(earlier, last.date);
        }
        assert forall|d: Date| #[trigger]
            dates.contains(d) <==> exists|k: int|
                0 <= k < members.len() && (#[trigger] members[k]).date == d && (only is None || only
                    == Some(members[k].entry)) by {
            if dates.contains(d) {
                if counts && d == last.date {
                    assert(members[members.len() - 1].date == d);
                } else {
                    assert(earlier.contains(d));
                    let k = choose|k: int|
                        0 <= k < members.drop_last().len()
                            && (#[trigger] members.drop_last()[k]).date
                            == d && (only is None || only == Some(members.drop_last()[k].entry));
                    assert(members[k] == members.drop_last()[k]);
                }
            }
            if exists|k: int|
                0 <= k < members.len() && (#[trigger] members[k]).date == d && (only is None || only
                    == Some(members[k].entry)) {
                let k = choose|k: int|
                    0 <= k < members.len() && (#[trigger] members[k]).date == d && (only is None
                        || only == Some(members[k].entry));
                if k < members.len() - 1 {
                    assert(members.drop_last()[k] == members[k]);
                    assert(earlier.contains(d));
                }
            }
        }
    }
}

/// A row as the listings give it: the entry under its identifier, whether it
/// is included, and the number of roundups that hold it.
pub struct ListedModel {
    pub id: int,
    pub included: bool,
    pub count: nat,
    pub entry: EntryModel,
}

/// Whether `a` must stand ahead of `b`: by fewer roundups, then by the
/// earlier source date; with `members_first`, an included row stands ahead of
/// any that is not.
pub open spec fn precedes(a: ListedModel, b: ListedModel, members_first: bool) -> bool {
    if members_first && a.included != b.included {
        a.included
    } else if a.count != b.count {
        a.count < b.count
    } else {
        a.entry.source_date.before(b.entry.source_date)
    }
}

/// The first index from `from` on whose row must stand behind `row`; the
/// length where there is none.
pub open spec fn row_slot(rows: Seq<ListedModel>, row: ListedModel, members_first: bool, from: int)
    -> int
    decreases rows.len() - from,
{
    if 0 <= from < rows.len() && !precedes(row, rows[from], members_first) {
        row_slot(rows, row, members_first, from + 1)
    } else {
        from
    }
}

/// `rows` with `row` put in at its slot.
pub open spec fn insert_row(rows: Seq<ListedModel>, row: ListedModel, members_first: bool) -> Seq<
    ListedModel,
> {
    rows.insert(row_slot(rows, row, members_first, 0), row)
}

/// `rows` in order: each row is put in at its slot, in turn, so rows that
/// neither precede the other keep their order.
pub open spec fn sorted(rows: Seq<ListedModel>, members_first: bool) -> Seq<ListedModel>
    decreases rows.len(),
{
    if rows.len() == 0 {
        Seq::empty()
    } else {
        insert_row(sorted(rows.drop_last(), members_first), rows.last(), members_first)
    }
}

/// No row stands behind one that it must precede.
pub open spec fn ordered(rows: Seq<ListedModel>, members_first: bool) -> bool {
    forall|i: int, j: int|
        0 <= i < j < rows.len() ==> !precedes(#[trigger] rows[j], #[trigger] rows[i], members_first)
}

/// The slot of a row lies within the list; the row precedes none of the rows
/// ahead of the slot, and it precedes the one at the slot.
pub proof fn lemma_row_slot(
    rows: Seq<ListedModel>,
    row: ListedModel,
    members_first: bool,
    from: int,
)
    requires
        0 <= from <= rows.len(),
    ensures
        from <= row_slot(rows, row, members_first, from) <= rows.len(),
        forall|k: int|
            from <= k < row_slot(rows, row, members_first, from) ==> !precedes(
                row,
                #[trigger] rows[k],
                members_first,
            ),
        row_slot(rows, row, members_first, from) < rows.len() ==> precedes(
            row,
            rows[row_slot(rows, row, members_first, from)],
            members_first,
        ),
    decreases rows.len() - from,
{
    if from < rows.len() && !precedes(row, rows[from], members_first) {
        lemma_row_slot(rows, row, members_first, from + 1);
    }
}

/// Putting a row into an ordered list keeps it ordered, and the list then
/// holds the rows it held and that row.
pub proof fn lemma_insert_row(rows: Seq<ListedModel>, row: ListedModel, members_first: bool)
    requires
        ordered(rows, members_first),
    ensures
        ordered(insert_row(rows, row, members_first), members_first),
        insert_row(rows, row, members_first).to_multiset() == rows.to_multiset().insert(row),
        insert_row(rows, row, members_first).len() == rows.len() + 1,
{
    let slot = row_slot(rows, row, members_first, 0);
    lemma_row_slot(rows, row, members_first, 0);
    let after = insert_row(rows, row, members_first);
    vstd::seq_lib::to_multiset_insert(rows, slot, row);
    assert forall|i: int, j: int| 0 <= i < j < after.len() implies !precedes(
        #[trigger] after[j],
        #[trigger] after[i],
        members_first,
    ) by {
        if j < slot {
            assert(after[i] == rows[i] && after[j] == rows[j]);
        } else if j == slot {
            assert(after[i] == rows[i]);
        } else if i < slot {
            assert(after[i] == rows[i] && after[j] == rows[j - 1]);
        } else if i == slot {
            assert(after[j] == rows[j - 1]);
            if j - 1 > slot {
                assert(!precedes(rows[j - 1], rows[slot], members_first));
            }
        } else {
            assert(after[i] == rows[i - 1] && after[j] == rows[j - 1]);
        }
    }
}

/// A sorted list is ordered and holds the rows of the list it was made from,
/// each as often.
pub proof fn lemma_sorted(rows: Seq<ListedModel>, members_first: bool)
    ensures
        ordered(sorted(rows, members_first), members_first),
        sorted(rows, members_first).to_multiset() == rows.to_multiset(),
        sorted(rows, members_first).len() == rows.len(),
    decreases rows.len(),
{
    if rows.len() == 0 {
        assert(rows =~= Seq::empty());
    } else {
        lemma_sorted(rows.drop_last(), members_first);
        lemma_insert_row(sorted(rows.drop_last(), members_first), rows.last(), members_first);
        vstd::seq_lib::to_multiset_build(rows.drop_last(), rows.last());
        assert(rows.drop_last().push(rows.last()) =~= rows);
    }
}

/// Every row of a sorted list is a row of the list it was made from, and the
/// other way round.
pub proof fn lemma_sorted_contains(rows: Seq<ListedModel>, members_first: bool, row: ListedModel)
    ensures
        sorted(rows, members_first).contains(row) <==> rows.contains(row),
{
    lemma_sorted(rows, members_first);
    vstd::seq_lib::to_multiset_contains(rows, row);
    vstd::seq_lib::to_multiset_contains(sorted(rows, members_first), row);
}

} // verus!
