//! Tests for the content-stream parser: times, job classification,
//! metadata, column classification and token extraction.

use shiftbook::columns::{classify, TableColumn};
use shiftbook::dates::{format_date, parse_date, Date};
use shiftbook::jobs::{job_creator, message_type_finder, to_iso8601};
use shiftbook::metadata::{identify_metadata, ShiftMeta};
use shiftbook::parser::{parse_page, strip_operator_noise};
use shiftbook::shift_structs::{
    JobDrivingType, JobMessageType, JobType, ShiftParseError, ShiftValid, Time,
};
use shiftbook::text::{keep_alpha, keep_digits, parse_u32_str, str_contains, to_upper};
use shiftbook::tokens::{extract_tokens, parse_coord};

fn time(hour: u8, minute: u8) -> Time {
    Time { hour, minute }
}

#[test]
fn hour_rollover_wraps_into_next_day() {
    assert_eq!(to_iso8601("24:00", "Start time"), Ok(Some(time(0, 0))));
    assert_eq!(to_iso8601("25:30", "Start time"), Ok(Some(time(1, 30))));
    assert_eq!(to_iso8601("23:59", "Start time"), Ok(Some(time(23, 59))));
}

#[test]
fn time_out_of_clock_range_is_dropped_without_error() {
    // An hour that is still no clock time after one rollover, or an
    // impossible minute, yields no time but no error either.
    assert_eq!(to_iso8601("48:00", "Start time"), Ok(None));
    assert_eq!(to_iso8601("12:75", "End time"), Ok(None));
}

#[test]
fn time_field_errors() {
    assert_eq!(
        to_iso8601("ab:10", "Start time"),
        Err(ShiftParseError::TimeFieldUnparsable { job: "Start time".to_string() })
    );
    assert_eq!(
        to_iso8601("12", "End time"),
        Err(ShiftParseError::TimeFieldMissing { job: "End time".to_string() })
    );
    assert_eq!(
        to_iso8601("12:xx", "End time"),
        Err(ShiftParseError::TimeFieldUnparsable { job: "End time".to_string() })
    );
}

#[test]
fn message_classifier_recognises_forms() {
    assert_eq!(
        message_type_finder("neem bus 12".to_string()),
        Some(JobMessageType::NeemBus { bustype: "bus 12".to_string() })
    );
    assert_eq!(
        message_type_finder("Bus op lijn 5".to_string()),
        Some(JobMessageType::BusOp { lijn: 5 })
    );
    assert_eq!(
        message_type_finder("pod naar depot".to_string()),
        Some(JobMessageType::NeemBus { bustype: "pod naar depot".to_string() })
    );
    assert_eq!(
        message_type_finder("Pass met 123/4".to_string()),
        Some(JobMessageType::Passagieren { dienstnummer: 123, omloop: "4".to_string() })
    );
    assert_eq!(
        message_type_finder("iets anders".to_string()),
        Some(JobMessageType::Other("iets anders".to_string()))
    );
    assert_eq!(message_type_finder("   ".to_string()), None);
    // An unparsable line number falls back to the caller's plain-text form.
    assert_eq!(message_type_finder("Bus op lijn X".to_string()), None);
}

#[test]
fn job_creator_classifies_cells() {
    let job = job_creator(
        Some("430".to_string()),
        Some("17".to_string()),
        Some("7".to_string()),
        Some("6:30".to_string()),
        Some("14:45".to_string()),
        Some("CS".to_string()),
        Some("Depot".to_string()),
    )
    .unwrap();
    assert_eq!(job.job_type, JobType::Rijden { drive_type: JobDrivingType::Lijn(430) });
    assert_eq!(job.omloop, Some(17));
    assert_eq!(job.rit, Some(7));
    assert_eq!(job.start, Some(time(6, 30)));
    assert_eq!(job.end, Some(time(14, 45)));
    assert_eq!(job.start_location, Some("CS".to_string()));
    assert_eq!(job.end_location, Some("Depot".to_string()));
}

#[test]
fn job_creator_line_markers() {
    let mat = job_creator(Some("MAT".to_string()), None, None, None, None, None, None).unwrap();
    assert_eq!(mat.job_type, JobType::Rijden { drive_type: JobDrivingType::Mat });
    let pauze = job_creator(Some("Pauze".to_string()), None, None, None, None, None, None).unwrap();
    assert_eq!(pauze.job_type, JobType::Pauze);
    let opaf =
        job_creator(Some("Op/Afstaptijd".to_string()), None, None, None, None, None, None).unwrap();
    assert_eq!(opaf.job_type, JobType::OpAfstap);
}

#[test]
fn cycle_markers_override_line_cell() {
    let job = job_creator(
        Some("430".to_string()),
        Some("Reserve".to_string()),
        None,
        None,
        None,
        None,
        None,
    )
    .unwrap();
    assert_eq!(job.job_type, JobType::Reserve);
    assert_eq!(job.omloop, None);
    let onderbreking = job_creator(
        None,
        Some("Onderbreking".to_string()),
        None,
        None,
        None,
        None,
        None,
    )
    .unwrap();
    assert_eq!(onderbreking.job_type, JobType::Onderbreking);
}

#[test]
fn all_absent_row_builds_an_empty_job() {
    let job = job_creator(None, None, None, None, None, None, None).unwrap();
    assert!(job.empty());
    assert_eq!(job.job_type, JobType::Unknown);
}

#[test]
fn cycle_or_trip_alone_makes_a_job_not_empty() {
    // Empty means every optional field absent: a lone cycle or trip
    // number already carries information.
    let cycle_only =
        job_creator(None, Some("17".to_string()), None, None, None, None, None).unwrap();
    assert_eq!(cycle_only.omloop, Some(17));
    assert!(!cycle_only.empty());
    let trip_only = job_creator(None, None, Some("7".to_string()), None, None, None, None).unwrap();
    assert_eq!(trip_only.rit, Some(7));
    assert!(!trip_only.empty());
}

#[test]
fn failing_time_cell_is_a_hard_error() {
    let r = job_creator(
        Some("430".to_string()),
        None,
        None,
        Some("bad".to_string()),
        None,
        None,
        None,
    );
    assert_eq!(
        r,
        Err(ShiftParseError::TimeFieldUnparsable { job: "Start time".to_string() })
    );
}

fn fresh_meta() -> ShiftMeta {
    ShiftMeta {
        starting_date: Date { year: 2025, month: 6, day: 29 },
        valid_on: ShiftValid::Unknown,
        shift_number: "0000".to_string(),
        location: String::new(),
    }
}

#[test]
fn metadata_rules_apply_in_priority_order() {
    let mut meta = fresh_meta();
    assert_eq!(
        identify_metadata(&mut meta, "Ingangsdatum 01-06-2025".to_string(), 800_000, 10_000),
        Some(())
    );
    assert_eq!(meta.starting_date, Date { year: 2025, month: 6, day: 1 });

    let mut meta = fresh_meta();
    assert_eq!(
        identify_metadata(&mut meta, "Dienst G 1234".to_string(), 800_000, 10_000),
        Some(())
    );
    assert_eq!(meta.shift_number, "G1234");

    let mut meta = fresh_meta();
    identify_metadata(&mut meta, "MA/DI/WO/DO/VR".to_string(), 800_000, 10_000);
    assert_eq!(meta.valid_on, ShiftValid::Weekdays);

    let mut meta = fresh_meta();
    identify_metadata(&mut meta, "MA/DI/DO/VR".to_string(), 800_000, 10_000);
    assert_eq!(meta.valid_on, ShiftValid::WeekdaysExceptWednesday);

    let mut meta = fresh_meta();
    identify_metadata(&mut meta, "WO".to_string(), 800_000, 10_000);
    assert_eq!(meta.valid_on, ShiftValid::Wednesday);

    let mut meta = fresh_meta();
    identify_metadata(&mut meta, "ZA".to_string(), 800_000, 10_000);
    assert_eq!(meta.valid_on, ShiftValid::Saturday);

    let mut meta = fresh_meta();
    identify_metadata(&mut meta, "ZO".to_string(), 800_000, 10_000);
    assert_eq!(meta.valid_on, ShiftValid::Sunday);
}

#[test]
fn metadata_location_needs_far_corner() {
    let mut meta = fresh_meta();
    identify_metadata(&mut meta, "Garage Oost".to_string(), 770_000, 350_000);
    assert_eq!(meta.location, "Garage Oost");

    let mut meta = fresh_meta();
    identify_metadata(&mut meta, "Garage Oost".to_string(), 700_000, 350_000);
    assert_eq!(meta.location, "");
}

#[test]
fn metadata_bad_date_reports_failure_and_changes_nothing() {
    let mut meta = fresh_meta();
    let before = meta.clone();
    assert_eq!(
        identify_metadata(&mut meta, "Ingangsdatum 31-13-2025".to_string(), 800_000, 10_000),
        None
    );
    assert_eq!(meta, before);
}

#[test]
fn date_parsing_validates_the_calendar() {
    assert_eq!(parse_date("29-02-2024"), Some(Date { year: 2024, month: 2, day: 29 }));
    assert_eq!(parse_date("29-02-2023"), None);
    assert_eq!(parse_date("31-04-2025"), None);
    assert_eq!(parse_date("01-13-2025"), None);
    assert_eq!(parse_date("1-1-2025"), None);
    assert_eq!(format_date(&Date { year: 2024, month: 2, day: 29 }), "29-02-2024");
    assert_eq!(format_date(&Date { year: 987, month: 1, day: 5 }), "05-01-0987");
}

#[test]
fn column_classification_by_relative_position() {
    // With offset zero the intervals stand at their nominal positions.
    assert_eq!(classify(0, 400_000, 0), Some(TableColumn::LineOrDuty));
    assert_eq!(classify(100_000, 400_000, 0), Some(TableColumn::Cycle));
    assert_eq!(classify(230_000, 400_000, 0), Some(TableColumn::Trip));
    assert_eq!(classify(267_000, 400_000, 0), Some(TableColumn::Trip));
    assert_eq!(classify(280_000, 400_000, 0), Some(TableColumn::StartTime));
    assert_eq!(classify(320_000, 400_000, 0), Some(TableColumn::FromLocation));
    assert_eq!(classify(380_000, 400_000, 0), Some(TableColumn::ToLocation));
    assert_eq!(classify(500_000, 400_000, 0), Some(TableColumn::EndTime));
    assert_eq!(classify(210_000, 400_000, 0), None);
    assert_eq!(classify(100_000, 40_000, 0), Some(TableColumn::Metadata));
    assert_eq!(classify(100_000, 740_000, 0), Some(TableColumn::Metadata));
}

#[test]
fn column_classification_is_offset_invariant() {
    // Shifting every token and the page offset against each other by the
    // same amount classifies alike.
    for x in [0i64, 100_000, 230_000, 280_000, 320_000, 380_000, 500_000, 210_000] {
        let d = 83_000i64;
        assert_eq!(classify(x + d, 400_000, -d), classify(x, 400_000, 0));
    }
}

#[test]
fn coordinate_parsing_is_fixed_point() {
    assert_eq!(parse_coord("56.8"), Some(56_800));
    assert_eq!(parse_coord("-3.25"), Some(-3_250));
    assert_eq!(parse_coord("1.2345"), Some(1_234));
    assert_eq!(parse_coord("12"), Some(12_000));
    assert_eq!(parse_coord(".5"), Some(500));
    assert_eq!(parse_coord("5."), Some(5_000));
    assert_eq!(parse_coord("+7"), Some(7_000));
    assert_eq!(parse_coord("abc"), None);
    assert_eq!(parse_coord(""), None);
    assert_eq!(parse_coord("."), None);
    assert_eq!(parse_coord("1234567890"), None);
}

#[test]
fn token_extraction_round_trips_authored_tokens() {
    let (tokens, errors) = extract_tokens("56.8 689.76\n(Hello) (World)\n");
    assert_eq!(errors.len(), 0);
    assert_eq!(tokens.len(), 2);
    assert_eq!(tokens[0].text, "Hello");
    assert_eq!(tokens[0].x, 56_800);
    assert_eq!(tokens[0].y, 689_760);
    assert_eq!(tokens[1].text, "World");
    assert_eq!(tokens[1].x, 56_800);
    assert_eq!(tokens[1].y, 689_760);
}

#[test]
fn token_without_coordinate_line_is_an_error_not_an_abort() {
    let (tokens, errors) = extract_tokens("(Orphan)\n12 13\n(Good)\n");
    assert_eq!(tokens.len(), 1);
    assert_eq!(tokens[0].text, "Good");
    assert_eq!(tokens[0].x, 12_000);
    assert_eq!(errors, vec![ShiftParseError::TokenCoordinateMissing]);
}

#[test]
fn unparsable_coordinate_line_is_an_error_not_an_abort() {
    let (tokens, errors) = extract_tokens("xx yy\n(Bad)\n1 2\n(Good)\n");
    assert_eq!(tokens.len(), 1);
    assert_eq!(tokens[0].text, "Good");
    assert_eq!(errors, vec![ShiftParseError::TokenCoordinateUnparsable]);
}

#[test]
fn operator_noise_is_stripped() {
    let stripped = strip_operator_noise("BT\n1 2 Td\n(Hi) Tj\nET\n");
    assert_eq!(stripped, "1 2 \n(Hi) \n");
}

#[test]
fn page_parse_assembles_rows_and_metadata() {
    let stream = "10 800\n(Ingangsdatum 01-06-2025)\n10 700\n(430)\n280 700\n(6:30)\n380 700\n(CS)\n10 690\n(Pauze)\n";
    let shift = parse_page(stream.to_string(), 3, "G1234".to_string()).unwrap();
    assert_eq!(shift.shift_nr, "G1234");
    assert_eq!(shift.starting_date, Date { year: 2025, month: 6, day: 1 });
    assert_eq!(shift.valid_on, ShiftValid::Unknown);
    assert_eq!(shift.parse_error, None);
    // The trailing row holding only `Pauze` has no following y-change and
    // is dropped; one job remains.
    assert_eq!(shift.job.len(), 1);
    let job = &shift.job[0];
    assert_eq!(job.job_type, JobType::Rijden { drive_type: JobDrivingType::Lijn(430) });
    assert_eq!(job.start, Some(time(6, 30)));
    assert_eq!(job.end_location, Some("CS".to_string()));
}

#[test]
fn metadata_token_does_not_split_a_row() {
    // A footer token arriving between two cells of the same row feeds
    // the metadata extractor but leaves the open row and its
    // y-coordinate alone: both cells end up in one job.
    let stream =
        "10 700\n(430)\n350 770\n(Garage Oost)\n280 700\n(6:30)\n10 690\n(Pauze)\n";
    let shift = parse_page(stream.to_string(), 2, "G9".to_string()).unwrap();
    assert_eq!(shift.location, "Garage Oost");
    assert_eq!(shift.job.len(), 1);
    let job = &shift.job[0];
    assert_eq!(job.job_type, JobType::Rijden { drive_type: JobDrivingType::Lijn(430) });
    assert_eq!(job.start, Some(time(6, 30)));
}

#[test]
fn bad_effective_date_is_recorded_not_fatal() {
    let stream = "10 800\n(Ingangsdatum 31-13-2025)\n10 700\n(430)\n10 690\n(Pauze)\n";
    let shift = parse_page(stream.to_string(), 5, "G1".to_string()).unwrap();
    assert_eq!(
        shift.parse_error,
        Some(vec![ShiftParseError::MetadataFailure { page_number: 5 }])
    );
    // The placeholder effective date stays in place.
    assert_eq!(shift.starting_date, Date { year: 2025, month: 6, day: 29 });
    assert_eq!(shift.job.len(), 1);
}

#[test]
fn empty_page_is_the_only_hard_failure() {
    let r = parse_page("just noise, no tokens\n".to_string(), 7, "G1".to_string());
    assert_eq!(r, Err(ShiftParseError::EmptyPage { page_number: 7 }));
}

#[test]
fn text_helpers_behave_like_std() {
    assert_eq!(to_upper("gm12.json"), "GM12.JSON");
    assert_eq!(keep_alpha("GM12"), "GM");
    assert_eq!(keep_digits("GM12"), "12");
    assert_eq!(parse_u32_str("0042"), Some(42));
    assert_eq!(parse_u32_str("+7"), Some(7));
    assert_eq!(parse_u32_str("4x"), None);
    assert_eq!(parse_u32_str(""), None);
    assert!(str_contains("Ingangsdatum 01-01-2024", "Ingangsdatum "));
    assert!(!str_contains("Ingang", "Ingangsdatum "));
}
