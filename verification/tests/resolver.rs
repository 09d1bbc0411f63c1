//! Tests for the timetable resolver: activation, fallback lookup, the
//! prefix alias, request parsing and the collection store.

use shiftbook::collection::{sort_collections, PdfTimetableCollection, ShiftData};
use shiftbook::dates::Date;
use shiftbook::error::{OptionResult};
use shiftbook::index::get_valid_shifts;
use shiftbook::kvmap::AssocMap;
use shiftbook::resolver::{
    check_shift_prefix, find_json_shift_path, find_shift, get_valid_timetables, lookup_shift,
    needs_refresh, parse_shift_request, shift_pdf_source, ShiftLookupOutcome,
};
use shiftbook::statistics::Statistics;

fn date(year: u16, month: u8, day: u8) -> Date {
    Date { year, month, day }
}

fn shift_data(pages: Vec<u32>, file_id: usize, prefix: &str) -> ShiftData {
    ShiftData { pages, file_id, shift_prefix: prefix.to_string() }
}

fn collection(valid_from: Date, shifts: Vec<(&str, ShiftData)>) -> PdfTimetableCollection {
    let mut pages: AssocMap<String, ShiftData> = AssocMap::new();
    for (nr, data) in shifts {
        pages.insert(nr.to_string(), data);
    }
    let mut files: AssocMap<usize, String> = AssocMap::new();
    files.insert(0, "book.pdf".to_string());
    PdfTimetableCollection { valid_from, files, pages }
}

#[test]
fn fallback_finds_shift_in_older_generation() {
    // A shift listed in 2020 but dropped from the 2024 reissue is still
    // served from the 2020 collection.
    let c2020 = collection(date(2020, 1, 1), vec![("100", shift_data(vec![4], 0, "G"))]);
    let c2024 = collection(date(2024, 1, 1), vec![("200", shift_data(vec![9], 0, "G"))]);
    let (mut active, next) = get_valid_timetables(&vec![c2020, c2024], date(2024, 6, 1));
    assert_eq!(next, None);
    assert_eq!(active.len(), 2);
    let (found_collection, found_data) = find_shift("100", &mut active).unwrap();
    assert_eq!(found_collection.valid_from, date(2020, 1, 1));
    assert_eq!(found_data.pages, vec![4]);
    // The newest collection was popped and inspected first.
    assert_eq!(active.len(), 0);
}

#[test]
fn newest_generation_wins_when_both_list_the_shift() {
    let c2020 = collection(date(2020, 1, 1), vec![("100", shift_data(vec![4], 0, "G"))]);
    let c2024 = collection(date(2024, 1, 1), vec![("100", shift_data(vec![9], 0, "G"))]);
    let (mut active, _) = get_valid_timetables(&vec![c2020, c2024], date(2024, 6, 1));
    let (found_collection, found_data) = find_shift("100", &mut active).unwrap();
    assert_eq!(found_collection.valid_from, date(2024, 1, 1));
    assert_eq!(found_data.pages, vec![9]);
}

#[test]
fn missing_shift_exhausts_the_stack() {
    let c2020 = collection(date(2020, 1, 1), vec![("100", shift_data(vec![4], 0, "G"))]);
    let mut active = vec![c2020];
    assert!(find_shift("999", &mut active).is_none());
    assert_eq!(active.len(), 0);
}

#[test]
fn activation_boundary_is_the_effective_date() {
    // A collection effective from D is active for D and later, inactive
    // before D.
    let d = date(2024, 1, 1);
    let store = vec![collection(d, vec![])];
    let (active, next) = get_valid_timetables(&store, date(2023, 12, 31));
    assert_eq!(active.len(), 0);
    assert_eq!(next, Some(d));
    let (active, next) = get_valid_timetables(&store, d);
    assert_eq!(active.len(), 1);
    assert_eq!(next, None);
    let (active, _) = get_valid_timetables(&store, date(2031, 7, 15));
    assert_eq!(active.len(), 1);
}

#[test]
fn prefix_alias_gm_and_g_match_either_way() {
    assert!(check_shift_prefix("", "G"));
    assert!(check_shift_prefix("G", "G"));
    assert!(check_shift_prefix("GM", "G"));
    assert!(check_shift_prefix("G", "GM"));
    assert!(!check_shift_prefix("X", "G"));
    assert!(!check_shift_prefix("GMX", "G"));
}

#[test]
fn lookup_applies_prefix_rules() {
    let c = collection(date(2020, 1, 1), vec![("12", shift_data(vec![2], 0, "G"))]);
    // Requested as GM12 against stored prefix G: the alias applies.
    let mut active = vec![c.clone()];
    let outcome = lookup_shift("12", "GM", &mut active);
    match outcome {
        ShiftLookupOutcome::Found { collection: found, data } => {
            assert_eq!(found.valid_from, date(2020, 1, 1));
            assert_eq!(data.shift_prefix, "G");
        },
        _ => panic!("expected the alias to match"),
    }
    // Requested as X12 against the same entry: rejected with the stored
    // prefix named.
    let mut active = vec![c.clone()];
    match lookup_shift("12", "X", &mut active) {
        ShiftLookupOutcome::PrefixMismatch { stored_prefix } => {
            assert_eq!(stored_prefix, "G");
        },
        _ => panic!("expected a prefix mismatch"),
    }
    // An unknown number is not found at all.
    let mut active = vec![c];
    assert!(matches!(lookup_shift("99", "", &mut active), ShiftLookupOutcome::ShiftNotFound));
}

#[test]
fn request_parsing_uppercases_and_splits() {
    let r = parse_shift_request("gm12.json");
    assert_eq!(r.shift, "GM12");
    assert_eq!(r.extension, Some("JSON".to_string()));
    assert_eq!(r.shift_prefix, "GM");
    assert_eq!(r.numeric_shift_number, "12");

    let r = parse_shift_request("G007");
    assert_eq!(r.shift, "G007");
    assert_eq!(r.extension, None);
    assert_eq!(r.shift_prefix, "G");
    assert_eq!(r.numeric_shift_number, "007");
}

#[test]
fn pdf_source_names_file_and_pages() {
    let c = collection(date(2020, 1, 1), vec![]);
    let (path, pages) = shift_pdf_source(&c, shift_data(vec![3, 4], 0, "G")).unwrap();
    assert_eq!(path, "book.pdf");
    assert_eq!(pages, vec![3, 4]);
    assert!(shift_pdf_source(&c, shift_data(vec![3], 9, "G")).is_none());
}

#[test]
fn json_path_uses_the_date_pattern() {
    assert_eq!(
        find_json_shift_path("1234", &date(2024, 6, 1)),
        "pdf_collection/01-06-2024/1234.json"
    );
}

#[test]
fn refresh_is_needed_only_after_the_change_date() {
    let change = date(2024, 6, 1);
    assert!(!needs_refresh(&date(2024, 5, 31), &Some(change)));
    assert!(!needs_refresh(&change, &Some(change)));
    assert!(needs_refresh(&date(2024, 6, 2), &Some(change)));
    assert!(!needs_refresh(&date(2024, 6, 2), &None));
}

#[test]
fn collections_sort_ascending_by_effective_date() {
    let mut v = vec![
        collection(date(2024, 1, 1), vec![]),
        collection(date(2020, 1, 1), vec![]),
        collection(date(2022, 6, 15), vec![]),
    ];
    sort_collections(&mut v);
    let dates: Vec<Date> = v.iter().map(|c| c.valid_from).collect();
    assert_eq!(dates, vec![date(2020, 1, 1), date(2022, 6, 15), date(2024, 1, 1)]);
}

#[test]
fn merge_unions_tables_and_newer_file_wins() {
    let mut sd: AssocMap<String, ShiftData> = AssocMap::new();
    sd.insert("100".to_string(), shift_data(vec![1], 1, "G"));
    let mut c = collection(date(2020, 1, 1), vec![("100", shift_data(vec![7], 0, "G"))]);
    c.merge_indexed_file(1, "second.pdf".to_string(), sd);
    assert_eq!(c.pages.get(&"100".to_string()).unwrap().pages, vec![1]);
    assert_eq!(c.files.get(&1).unwrap(), "second.pdf");
    assert_eq!(c.files.get(&0).unwrap(), "book.pdf");
}

#[test]
fn reindexing_the_same_file_twice_changes_nothing() {
    // Merge idempotence: indexing one source file into an empty store and
    // then indexing it again yields identical file and page tables.
    let mut sd: AssocMap<String, ShiftData> = AssocMap::new();
    sd.insert("100".to_string(), shift_data(vec![1, 2], 0, "G"));
    let mut sd_again: AssocMap<String, ShiftData> = AssocMap::new();
    sd_again.insert("100".to_string(), shift_data(vec![1, 2], 0, "G"));

    let once = PdfTimetableCollection::from_indexed_file(
        date(2024, 1, 1),
        0,
        "book.pdf".to_string(),
        sd,
    );
    let mut twice = once.clone();
    twice.merge_indexed_file(0, "book.pdf".to_string(), sd_again);

    assert_eq!(twice.files.len(), once.files.len());
    assert_eq!(twice.pages.len(), once.pages.len());
    assert_eq!(twice.files.get(&0).unwrap(), once.files.get(&0).unwrap());
    assert_eq!(
        twice.pages.get(&"100".to_string()).unwrap(),
        once.pages.get(&"100".to_string()).unwrap()
    );
}

#[test]
fn index_lists_each_shift_under_its_newest_collection() {
    let c2020 = collection(date(2020, 1, 1), vec![("100", shift_data(vec![4], 0, "G"))]);
    let c2024 = collection(date(2024, 1, 1), vec![("100", shift_data(vec![9], 0, "GM"))]);
    let shifts = get_valid_shifts(&vec![c2020, c2024]);
    assert_eq!(shifts.len(), 1);
    assert_eq!(shifts[0].shift_number, "GM100");
    assert_eq!(shifts[0].valid_from, date(2024, 1, 1));
}

#[test]
fn statistics_count_the_store() {
    let c2020 = collection(date(2020, 1, 1), vec![("100", shift_data(vec![4], 0, "G"))]);
    let c2024 = collection(
        date(2024, 1, 1),
        vec![("100", shift_data(vec![9], 0, "G")), ("200", shift_data(vec![2], 0, "G"))],
    );
    let all = vec![c2020.clone(), c2024.clone()];
    let active = vec![c2020];
    let stats = Statistics::create_statistics(
        &all,
        &active,
        Some(date(2024, 1, 1)),
        1,
        vec!["bad.json".to_string()],
    );
    assert_eq!(stats.shifts, 3);
    assert_eq!(stats.active_shifts, 1);
    assert_eq!(stats.inactive_shifts, 2);
    assert_eq!(stats.timetables, 2);
    assert_eq!(stats.active_timetables, 1);
    assert_eq!(stats.future_timetables, 1);
    assert_eq!(stats.valid_shifts, 1);
    assert_eq!(stats.recent_timetable, Some("01-01-2020".to_string()));
    assert_eq!(stats.next_timetable, Some("01-01-2024".to_string()));
    assert_eq!(stats.errored_shifts, vec!["bad.json".to_string()]);
}

#[test]
fn option_result_converts_absence_to_errors() {
    assert_eq!(Some(5u32).result().unwrap(), 5);
    assert_eq!(None::<u32>.result().unwrap_err().message, "Option Unwrap");
    assert_eq!(None::<u32>.result_reason("No PDF found").unwrap_err().message, "No PDF found");
    assert_eq!(Some("x").result_reason("unused").unwrap(), "x");
}
