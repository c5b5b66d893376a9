use roundup::catalog::{insert, Catalog, CatalogRow, Membership, RoundupRow};
use roundup::date::Date;
use roundup::entry::{ReadState, ReadingListEntry};
use roundup::error::{Error, RoundupError, RoundupErrorKind, StoreError};
use roundup::intents::UpdateReport;

fn date(year: i32, month: u32, day: u32) -> Date {
    Date::new(year, month, day).expect("a day of the calendar")
}

fn entry(url: &str, body: &str, source_date: Date, read: ReadState) -> ReadingListEntry {
    ReadingListEntry {
        url: String::from(url),
        original_text: format!("- #reading {body}"),
        body_text: String::from(body),
        source_date,
        read,
    }
}

fn plain(url: &str) -> ReadingListEntry {
    entry(url, url, date(2024, 1, 1), ReadState::Unknown)
}

/// A catalog with the rows 1 to `n`, each read, dated on consecutive days.
fn catalog_of(n: u32) -> Catalog {
    let mut catalog = Catalog::new();
    let entries: Vec<ReadingListEntry> = (1..=n)
        .map(|i| entry(&format!("https://e{i}/"), &format!("body {i}"), date(2024, 1, i), ReadState::Read))
        .collect();
    assert_eq!(insert(&entries, &mut catalog), Ok(n as usize));
    catalog
}

fn ids(rows: &[RoundupRow]) -> Vec<i64> {
    rows.iter().map(|row| row.id).collect()
}

fn included(rows: &[RoundupRow]) -> Vec<i64> {
    rows.iter().filter(|row| row.included).map(|row| row.id).collect()
}

fn excluded(rows: &[RoundupRow]) -> Vec<i64> {
    rows.iter().filter(|row| !row.included).map(|row| row.id).collect()
}

#[test]
fn a_new_catalog_is_empty() {
    let catalog = Catalog::new();
    assert!(catalog.rows().is_empty());
    assert!(catalog.memberships().is_empty());
    assert_eq!(catalog.list_entries(), Vec::new());
    assert_eq!(catalog.list_roundups(), Vec::new());
}

#[test]
fn insert_of_nothing_leaves_the_count() {
    let mut catalog = Catalog::new();
    assert_eq!(insert(&Vec::new(), &mut catalog), Ok(0));
    let mut catalog = catalog_of(3);
    assert_eq!(insert(&Vec::new(), &mut catalog), Ok(3));
    assert_eq!(catalog.rows().len(), 3);
}

#[test]
fn insert_hands_out_identifiers_in_order() {
    let mut catalog = Catalog::new();
    let entries = vec![plain("https://a/"), plain("https://b/"), plain("https://c/")];
    assert_eq!(insert(&entries, &mut catalog), Ok(3));
    let rows = catalog.rows();
    assert_eq!(rows[0], CatalogRow { id: 1, entry: plain("https://a/") });
    assert_eq!(rows[1], CatalogRow { id: 2, entry: plain("https://b/") });
    assert_eq!(rows[2], CatalogRow { id: 3, entry: plain("https://c/") });
    assert_eq!(insert(&vec![plain("https://d/")], &mut catalog), Ok(4));
    assert_eq!(catalog.rows()[3].id, 4);
}

#[test]
fn the_first_entry_of_a_link_wins() {
    let first = entry("https://same/", "first", date(2024, 1, 1), ReadState::Read);
    let second = entry("https://same/", "second", date(2024, 2, 2), ReadState::ToBeRead);
    let mut catalog = Catalog::new();
    assert_eq!(insert(&vec![first.duplicate(), second.duplicate()], &mut catalog), Ok(1));
    assert_eq!(catalog.rows().len(), 1);
    assert_eq!(catalog.rows()[0].entry, first);

    let mut other = Catalog::new();
    assert_eq!(insert(&vec![second.duplicate()], &mut other), Ok(1));
    assert_eq!(insert(&vec![first.duplicate()], &mut other), Ok(1));
    assert_eq!(other.rows().len(), 1);
    assert_eq!(other.rows()[0].entry, second);
}

#[test]
fn insert_keeps_what_the_editor_changed() {
    let mut catalog = Catalog::new();
    let scanned = entry("https://a/", "scanned", date(2024, 1, 1), ReadState::Unknown);
    assert_eq!(insert(&vec![scanned.duplicate()], &mut catalog), Ok(1));
    assert_eq!(catalog.update_entry(1, "edited", ReadState::Read), 1);
    assert_eq!(insert(&vec![scanned.duplicate()], &mut catalog), Ok(1));
    let (held, _) = catalog.get_entry(1).unwrap();
    assert_eq!(held.body_text, "edited");
    assert_eq!(held.read, ReadState::Read);
}

#[test]
fn insert_twice_is_insert_once() {
    let entries = vec![plain("https://a/"), plain("https://b/"), plain("https://a/")];
    let mut once = Catalog::new();
    assert_eq!(insert(&entries, &mut once), Ok(2));
    let mut twice = Catalog::new();
    assert_eq!(insert(&entries, &mut twice), Ok(2));
    assert_eq!(insert(&entries, &mut twice), Ok(2));
    assert_eq!(once.rows(), twice.rows());
    assert_eq!(once.memberships(), twice.memberships());
}

#[test]
fn the_order_of_insertion_does_not_change_what_is_held() {
    let a = plain("https://a/");
    let b = plain("https://b/");
    let c = plain("https://c/");
    let mut one = Catalog::new();
    insert(&vec![a.duplicate(), b.duplicate()], &mut one).unwrap();
    insert(&vec![c.duplicate(), a.duplicate()], &mut one).unwrap();
    let mut other = Catalog::new();
    insert(&vec![c.duplicate()], &mut other).unwrap();
    insert(&vec![a.duplicate(), a.duplicate(), b.duplicate()], &mut other).unwrap();
    let mut held: Vec<String> = one.rows().iter().map(|row| row.entry.summary()).collect();
    let mut held_other: Vec<String> = other.rows().iter().map(|row| row.entry.summary()).collect();
    held.sort();
    held_other.sort();
    assert_eq!(held, held_other);
    assert_eq!(one.rows().len(), 3);
}

#[test]
fn links_stay_unique() {
    let mut catalog = Catalog::new();
    let entries: Vec<ReadingListEntry> =
        ["a", "b", "a", "c", "b", "a"].iter().map(|name| plain(&format!("https://{name}/"))).collect();
    assert_eq!(insert(&entries, &mut catalog), Ok(3));
    assert_eq!(insert(&entries, &mut catalog), Ok(3));
    let mut urls: Vec<&str> = catalog.rows().iter().map(|row| row.entry.url.as_str()).collect();
    urls.sort();
    urls.dedup();
    assert_eq!(urls.len(), catalog.rows().len());
}

#[test]
fn insert_fails_as_a_whole_where_the_identifiers_run_out() {
    let rows = vec![CatalogRow { id: i64::MAX - 1, entry: plain("https://held/") }];
    let mut catalog = Catalog::from_parts(rows, Vec::new()).unwrap();
    let entries = vec![plain("https://held/"), plain("https://fits/"), plain("https://too-many/")];
    assert_eq!(insert(&entries, &mut catalog), Err(StoreError::IdsExhausted));
    assert_eq!(catalog.rows().len(), 1);
    assert_eq!(catalog.rows()[0].id, i64::MAX - 1);
    assert_eq!(insert(&vec![plain("https://held/"), plain("https://fits/")], &mut catalog), Ok(2));
    assert_eq!(catalog.rows()[1].id, i64::MAX);
    assert_eq!(insert(&vec![plain("https://held/"), plain("https://fits/")], &mut catalog), Ok(2));
    assert_eq!(insert(&vec![plain("https://more/")], &mut catalog), Err(StoreError::IdsExhausted));
    assert_eq!(catalog.rows().len(), 2);
}

#[test]
fn from_parts_takes_distinct_rows() {
    let rows = vec![
        CatalogRow { id: 7, entry: plain("https://a/") },
        CatalogRow { id: 3, entry: plain("https://b/") },
    ];
    let members = vec![Membership { date: date(2024, 3, 1), entry: 7 }];
    let mut catalog = Catalog::from_parts(rows, members).unwrap();
    assert_eq!(catalog.rows().len(), 2);
    assert_eq!(catalog.memberships(), &vec![Membership { date: date(2024, 3, 1), entry: 7 }]);
    assert_eq!(insert(&vec![plain("https://c/")], &mut catalog), Ok(3));
    assert_eq!(catalog.rows()[2].id, 8);
    let empty = Catalog::from_parts(Vec::new(), Vec::new()).unwrap();
    assert!(empty.rows().is_empty());
}

#[test]
fn from_parts_counts_from_one_where_no_identifier_is_positive() {
    let rows = vec![CatalogRow { id: -5, entry: plain("https://a/") }];
    let mut catalog = Catalog::from_parts(rows, Vec::new()).unwrap();
    assert_eq!(insert(&vec![plain("https://b/")], &mut catalog), Ok(2));
    assert_eq!(catalog.rows()[1].id, 1);
}

#[test]
fn from_parts_refuses_rows_that_share_a_link_or_an_identifier() {
    let same_id = vec![
        CatalogRow { id: 1, entry: plain("https://a/") },
        CatalogRow { id: 1, entry: plain("https://b/") },
    ];
    assert!(Catalog::from_parts(same_id, Vec::new()).is_none());
    let same_url = vec![
        CatalogRow { id: 1, entry: plain("https://a/") },
        CatalogRow { id: 2, entry: plain("https://b/") },
        CatalogRow { id: 3, entry: plain("https://a/") },
    ];
    assert!(Catalog::from_parts(same_url, Vec::new()).is_none());
}

#[test]
fn update_entry_sets_body_and_read_state() {
    let mut catalog = catalog_of(3);
    let before = catalog.get_entry(2).unwrap().0;
    assert_eq!(catalog.update_entry(2, "new body", ReadState::ToBeRead), 1);
    let after = catalog.get_entry(2).unwrap().0;
    assert_eq!(after.body_text, "new body");
    assert_eq!(after.read, ReadState::ToBeRead);
    assert_eq!(after.url, before.url);
    assert_eq!(after.original_text, before.original_text);
    assert_eq!(after.source_date, before.source_date);
    assert_eq!(catalog.get_entry(1).unwrap().0.body_text, "body 1");
    assert_eq!(catalog.get_entry(3).unwrap().0.body_text, "body 3");
    assert_eq!(catalog.update_entry(2, "", ReadState::Unknown), 1);
    assert_eq!(catalog.get_entry(2).unwrap().0.read, ReadState::Unknown);
}

#[test]
fn update_entry_of_a_missing_id_changes_nothing() {
    let mut catalog = catalog_of(3);
    let before: Vec<CatalogRow> = catalog.rows().clone();
    assert_eq!(catalog.update_entry(99, "ghost", ReadState::Read), 0);
    assert_eq!(catalog.update_entry(0, "ghost", ReadState::Read), 0);
    assert_eq!(catalog.rows(), &before);
    let mut empty = Catalog::new();
    assert_eq!(empty.update_entry(1, "ghost", ReadState::Read), 0);
    assert!(empty.rows().is_empty());
}

#[test]
fn get_entry_counts_memberships() {
    let mut catalog = catalog_of(3);
    assert_eq!(catalog.get_entry(1).unwrap().1, 0);
    catalog.set_roundup(date(2024, 3, 1), &vec![1, 2]);
    catalog.set_roundup(date(2024, 3, 8), &vec![1]);
    let (first, count) = catalog.get_entry(1).unwrap();
    assert_eq!(first.url, "https://e1/");
    assert_eq!(count, 2);
    assert_eq!(catalog.get_entry(2).unwrap().1, 1);
    assert_eq!(catalog.get_entry(3).unwrap().1, 0);
    catalog.set_roundup(date(2024, 3, 15), &vec![3, 3]);
    assert_eq!(catalog.get_entry(3).unwrap().1, 2);
}

#[test]
fn get_entry_of_a_missing_id_is_an_error() {
    let catalog = catalog_of(2);
    assert_eq!(catalog.get_entry(3), Err(StoreError::MissingEntry(3)));
    assert_eq!(Catalog::new().get_entry(1), Err(StoreError::MissingEntry(1)));
}

#[test]
fn set_roundup_replaces_the_roundup() {
    let mut catalog = catalog_of(4);
    let day = date(2024, 3, 1);
    catalog.set_roundup(day, &vec![1, 2, 3]);
    catalog.set_roundup(day, &vec![2, 4]);
    let rows = catalog.get_roundup(day);
    assert_eq!(included(&rows), vec![2, 4]);
    assert_eq!(excluded(&rows), vec![1, 3]);
    assert_eq!(
        catalog.memberships(),
        &vec![Membership { date: day, entry: 2 }, Membership { date: day, entry: 4 }]
    );
}

#[test]
fn set_roundup_leaves_other_dates() {
    let mut catalog = catalog_of(3);
    let first = date(2024, 3, 1);
    let second = date(2024, 3, 8);
    catalog.set_roundup(first, &vec![1, 2]);
    catalog.set_roundup(second, &vec![2, 3]);
    catalog.set_roundup(first, &vec![3]);
    assert_eq!(
        catalog.memberships(),
        &vec![
            Membership { date: second, entry: 2 },
            Membership { date: second, entry: 3 },
            Membership { date: first, entry: 3 },
        ]
    );
    assert_eq!(included(&catalog.get_roundup(second)), vec![2, 3]);
    assert_eq!(included(&catalog.get_roundup(first)), vec![3]);
}

#[test]
fn set_roundup_twice_is_set_roundup_once() {
    let day = date(2024, 3, 1);
    let mut once = catalog_of(3);
    once.set_roundup(date(2024, 2, 1), &vec![3]);
    once.set_roundup(day, &vec![1, 2]);
    let mut twice = catalog_of(3);
    twice.set_roundup(date(2024, 2, 1), &vec![3]);
    twice.set_roundup(day, &vec![1, 2]);
    twice.set_roundup(day, &vec![1, 2]);
    assert_eq!(once.memberships(), twice.memberships());
    assert_eq!(once.rows(), twice.rows());
}

#[test]
fn set_roundup_to_nothing_removes_the_roundup() {
    let mut catalog = catalog_of(2);
    let day = date(2024, 3, 1);
    catalog.set_roundup(day, &vec![1]);
    assert_eq!(catalog.list_roundups(), vec![day]);
    catalog.set_roundup(day, &Vec::new());
    assert_eq!(catalog.list_roundups(), Vec::new());
    assert!(catalog.memberships().is_empty());
}

#[test]
fn set_roundup_keeps_an_identifier_that_stands_twice() {
    let mut catalog = catalog_of(2);
    let day = date(2024, 3, 1);
    catalog.set_roundup(day, &vec![1, 1]);
    assert_eq!(catalog.memberships().len(), 2);
    assert_eq!(included(&catalog.get_roundup(day)), vec![1]);
    assert_eq!(catalog.get_roundup(day)[0].count, 1);
    assert_eq!(catalog.list_roundups(), vec![day]);
}

#[test]
fn get_roundup_reports_what_was_set() {
    let mut catalog = catalog_of(5);
    let day = date(2024, 3, 1);
    for wanted in [vec![], vec![3], vec![5, 1], vec![1, 2, 3, 4, 5]] {
        catalog.set_roundup(day, &wanted);
        let mut reported = included(&catalog.get_roundup(day));
        reported.sort();
        let mut sorted = wanted.clone();
        sorted.sort();
        assert_eq!(reported, sorted);
        assert_eq!(catalog.get_roundup(day).len(), 5);
    }
}

#[test]
fn get_roundup_puts_members_first_then_the_least_used() {
    let mut catalog = Catalog::new();
    let entries = vec![
        entry("https://1/", "1", date(2024, 1, 9), ReadState::Read),
        entry("https://2/", "2", date(2024, 1, 3), ReadState::Read),
        entry("https://3/", "3", date(2024, 1, 5), ReadState::Read),
        entry("https://4/", "4", date(2024, 1, 1), ReadState::Read),
        entry("https://5/", "5", date(2024, 1, 7), ReadState::Read),
    ];
    insert(&entries, &mut catalog).unwrap();
    catalog.set_roundup(date(2024, 2, 1), &vec![4, 5]);
    catalog.set_roundup(date(2024, 2, 8), &vec![4, 1]);
    let day = date(2024, 3, 1);
    catalog.set_roundup(day, &vec![1, 2, 4]);
    let rows = catalog.get_roundup(day);
    // included: 2 (1 roundup), 1 (2 roundups), 4 (3 roundups);
    // excluded: 3 (0 roundups), 5 (1 roundup)
    assert_eq!(ids(&rows), vec![2, 1, 4, 3, 5]);
    let counts: Vec<usize> = rows.iter().map(|row| row.count).collect();
    assert_eq!(counts, vec![1, 2, 3, 0, 1]);
    assert_eq!(included(&rows), vec![2, 1, 4]);
    assert_eq!(rows[0].entry, entries[1]);
}

#[test]
fn get_roundup_orders_equal_counts_by_source_date() {
    let mut catalog = Catalog::new();
    let entries = vec![
        entry("https://1/", "1", date(2024, 1, 9), ReadState::Read),
        entry("https://2/", "2", date(2023, 12, 31), ReadState::Read),
        entry("https://3/", "3", date(2024, 1, 5), ReadState::Read),
        entry("https://4/", "4", date(2024, 1, 5), ReadState::Read),
    ];
    insert(&entries, &mut catalog).unwrap();
    let day = date(2024, 3, 1);
    assert_eq!(ids(&catalog.get_roundup(day)), vec![2, 3, 4, 1]);
    catalog.set_roundup(day, &vec![1, 3]);
    assert_eq!(ids(&catalog.get_roundup(day)), vec![3, 1, 2, 4]);
}

#[test]
fn get_roundup_of_a_date_without_a_roundup_includes_nothing() {
    let mut catalog = catalog_of(3);
    catalog.set_roundup(date(2024, 3, 1), &vec![1]);
    let rows = catalog.get_roundup(date(2024, 3, 2));
    assert_eq!(included(&rows), Vec::<i64>::new());
    assert_eq!(ids(&rows), vec![2, 3, 1]);
}

#[test]
fn list_entries_orders_by_count_then_source_date() {
    let mut catalog = Catalog::new();
    let entries = vec![
        entry("https://1/", "1", date(2024, 1, 9), ReadState::Read),
        entry("https://2/", "2", date(2024, 1, 3), ReadState::ToBeRead),
        entry("https://3/", "3", date(2024, 1, 5), ReadState::Unknown),
        entry("https://4/", "4", date(2024, 1, 1), ReadState::Read),
    ];
    insert(&entries, &mut catalog).unwrap();
    assert_eq!(ids(&catalog.list_entries()), vec![4, 2, 3, 1]);
    catalog.set_roundup(date(2024, 2, 1), &vec![4, 2]);
    catalog.set_roundup(date(2024, 2, 8), &vec![4]);
    let rows = catalog.list_entries();
    assert_eq!(ids(&rows), vec![3, 1, 2, 4]);
    let counts: Vec<usize> = rows.iter().map(|row| row.count).collect();
    assert_eq!(counts, vec![0, 0, 1, 2]);
    assert_eq!(included(&rows), vec![2, 4]);
    assert_eq!(rows[2].entry, entries[1]);
}

#[test]
fn list_roundups_gives_each_date_once_in_order() {
    let mut catalog = catalog_of(3);
    catalog.set_roundup(date(2024, 3, 8), &vec![1, 2]);
    catalog.set_roundup(date(2023, 12, 31), &vec![3]);
    catalog.set_roundup(date(2024, 3, 1), &vec![1, 2, 3]);
    catalog.set_roundup(date(2024, 1, 20), &vec![2]);
    assert_eq!(
        catalog.list_roundups(),
        vec![date(2023, 12, 31), date(2024, 1, 20), date(2024, 3, 1), date(2024, 3, 8)]
    );
}

#[test]
fn list_roundups_by_entry_gives_the_dates_of_one_entry() {
    let mut catalog = catalog_of(3);
    catalog.set_roundup(date(2024, 3, 8), &vec![1, 2]);
    catalog.set_roundup(date(2023, 12, 31), &vec![3]);
    catalog.set_roundup(date(2024, 3, 1), &vec![1, 2, 3, 2]);
    assert_eq!(catalog.list_roundups_by_entry(1), vec![date(2024, 3, 1), date(2024, 3, 8)]);
    assert_eq!(catalog.list_roundups_by_entry(2), vec![date(2024, 3, 1), date(2024, 3, 8)]);
    assert_eq!(catalog.list_roundups_by_entry(3), vec![date(2023, 12, 31), date(2024, 3, 1)]);
    assert_eq!(catalog.list_roundups_by_entry(4), Vec::new());
}

#[test]
fn memberships_name_entries_as_long_as_the_editor_names_entries() {
    let mut catalog = catalog_of(3);
    catalog.set_roundup(date(2024, 3, 1), &vec![1, 3]);
    insert(&vec![plain("https://new/")], &mut catalog).unwrap();
    catalog.update_entry(1, "edited", ReadState::Read);
    catalog.set_roundup(date(2024, 3, 8), &vec![4]);
    for member in catalog.memberships() {
        assert!(catalog.get_entry(member.entry).is_ok());
    }
}

#[test]
fn export_begins_with_the_front_matter() {
    let mut catalog = Catalog::new();
    let entries = vec![
        entry("https://a/", "A", date(2024, 1, 1), ReadState::Read),
        entry("https://b/", "B", date(2024, 1, 2), ReadState::Read),
        entry("https://c/", "C", date(2024, 1, 3), ReadState::Read),
    ];
    insert(&entries, &mut catalog).unwrap();
    catalog.set_roundup(date(2024, 2, 1), &vec![3]);
    catalog.set_roundup(date(2024, 3, 1), &vec![1, 2]);
    assert_eq!(
        catalog.compose_roundup_markdown(date(2024, 3, 1)),
        Ok(String::from(
            "---\ntitle: \"Reading Roundup, 2024-03-01\"\ndate: 2024-03-01\n---\n\nA\n\nB\n\n"
        ))
    );
    catalog.set_roundup(date(2024, 3, 1), &vec![2, 1]);
    assert_eq!(
        catalog.compose_roundup_markdown(date(2024, 3, 1)),
        Ok(String::from(
            "---\ntitle: \"Reading Roundup, 2024-03-01\"\ndate: 2024-03-01\n---\n\nB\n\nA\n\n"
        ))
    );
}

#[test]
fn export_of_a_date_without_a_roundup_is_the_front_matter() {
    let catalog = catalog_of(2);
    assert_eq!(
        catalog.compose_roundup_markdown(date(2024, 12, 5)),
        Ok(String::from("---\ntitle: \"Reading Roundup, 2024-12-05\"\ndate: 2024-12-05\n---\n\n"))
    );
}

#[test]
fn export_takes_the_body_as_the_editor_left_it() {
    let mut catalog = catalog_of(1);
    catalog.set_roundup(date(2024, 3, 1), &vec![1]);
    catalog.update_entry(1, "edited *body*\nsecond line", ReadState::Read);
    assert_eq!(
        catalog.compose_roundup_markdown(date(2024, 3, 1)),
        Ok(String::from(
            "---\ntitle: \"Reading Roundup, 2024-03-01\"\ndate: 2024-03-01\n---\n\nedited *body*\nsecond line\n\n"
        ))
    );
}

#[test]
fn export_fails_where_a_membership_names_no_entry() {
    let mut catalog = catalog_of(2);
    catalog.set_roundup(date(2024, 3, 1), &vec![1, 7, 9]);
    assert_eq!(
        catalog.compose_roundup_markdown(date(2024, 3, 1)),
        Err(StoreError::MissingEntry(7))
    );
    assert!(catalog.compose_roundup_markdown(date(2024, 3, 2)).is_ok());
}

#[test]
fn create_entry_returns_the_id_of_the_new_row() {
    let mut catalog = catalog_of(2);
    let today = date(2024, 5, 1);
    assert_eq!(catalog.create_entry(today, "look at [this](https://new.example)"), Ok(3));
    let (held, count) = catalog.get_entry(3).unwrap();
    assert_eq!(count, 0);
    assert_eq!(
        held,
        ReadingListEntry {
            url: String::from("https://new.example/"),
            original_text: String::from("look at [this](https://new.example)"),
            body_text: String::from("look at [this](https://new.example)"),
            source_date: today,
            read: ReadState::Unknown,
        }
    );
}

#[test]
fn create_entry_returns_the_id_of_the_row_that_holds_the_link() {
    let mut catalog = catalog_of(3);
    let today = date(2024, 5, 1);
    assert_eq!(catalog.create_entry(today, "again <https://e2/>"), Ok(2));
    assert_eq!(catalog.rows().len(), 3);
    assert_eq!(catalog.get_entry(2).unwrap().0.body_text, "body 2");
    assert_eq!(catalog.get_entry(2).unwrap().0.source_date, date(2024, 1, 2));
}

#[test]
fn create_entry_without_a_link_is_a_scanning_error() {
    let mut catalog = catalog_of(1);
    assert_eq!(
        catalog.create_entry(date(2024, 5, 1), "no link"),
        Err(Error::ScanningError(RoundupErrorKind::MissingLink(String::from("no link"))))
    );
    assert_eq!(catalog.rows().len(), 1);
}

#[test]
fn create_entry_fails_where_the_identifiers_run_out() {
    let rows = vec![CatalogRow { id: i64::MAX, entry: plain("https://held/") }];
    let mut catalog = Catalog::from_parts(rows, Vec::new()).unwrap();
    assert_eq!(
        catalog.create_entry(date(2024, 5, 1), "<https://new/>"),
        Err(Error::StoreError(StoreError::IdsExhausted))
    );
    assert_eq!(catalog.create_entry(date(2024, 5, 1), "<https://held/>"), Ok(i64::MAX));
    assert_eq!(catalog.rows().len(), 1);
}

#[test]
fn create_scanned_passes_the_scan_error_on() {
    let mut catalog = Catalog::new();
    assert_eq!(
        catalog.create_scanned(Err(RoundupErrorKind::MarkdownError(String::from("x")))),
        Err(Error::ScanningError(RoundupErrorKind::MarkdownError(String::from("x"))))
    );
    assert_eq!(catalog.create_scanned(Ok(plain("https://a/"))), Ok(1));
    assert_eq!(catalog.create_scanned(Ok(plain("https://b/"))), Ok(2));
    assert_eq!(catalog.create_scanned(Ok(plain("https://a/"))), Ok(1));
}

#[test]
fn update_reports_the_counts() {
    let mut catalog = catalog_of(2);
    let found = vec![plain("https://e1/"), plain("https://new/")];
    let report = catalog.update(&found, &Vec::new());
    assert_eq!(report, UpdateReport { found: 2, scan_errors: 0, counts: Ok((2, 3)) });
    assert!(report.succeeded());
}

#[test]
fn update_with_scan_errors_still_takes_the_entries() {
    let mut catalog = Catalog::new();
    let found = vec![plain("https://valid/")];
    let errors = vec![RoundupError {
        file: String::from("journal/README.md"),
        kind: RoundupErrorKind::InvalidFile(roundup::error::STEM_NOT_A_DATE),
    }];
    let report = catalog.update(&found, &errors);
    assert_eq!(report, UpdateReport { found: 1, scan_errors: 1, counts: Ok((0, 1)) });
    assert!(!report.succeeded());
    assert_eq!(catalog.rows().len(), 1);
}

#[test]
fn update_that_the_catalog_refuses_changes_nothing() {
    let rows = vec![CatalogRow { id: i64::MAX, entry: plain("https://held/") }];
    let mut catalog = Catalog::from_parts(rows, Vec::new()).unwrap();
    let report = catalog.update(&vec![plain("https://new/")], &Vec::new());
    assert_eq!(
        report,
        UpdateReport { found: 1, scan_errors: 0, counts: Err(StoreError::IdsExhausted) }
    );
    assert!(!report.succeeded());
    assert_eq!(catalog.rows().len(), 1);
}

#[test]
fn an_identifier_that_names_no_entry_is_kept_but_not_listed() {
    let mut catalog = catalog_of(2);
    let day = date(2024, 3, 1);
    catalog.set_roundup(day, &vec![2, 99]);
    assert_eq!(
        catalog.memberships(),
        &vec![Membership { date: day, entry: 2 }, Membership { date: day, entry: 99 }]
    );
    let rows = catalog.get_roundup(day);
    assert_eq!(ids(&rows), vec![2, 1]);
    assert_eq!(included(&rows), vec![2]);
    assert_eq!(catalog.list_roundups_by_entry(99), vec![day]);
    assert_eq!(catalog.get_entry(99), Err(StoreError::MissingEntry(99)));
}
