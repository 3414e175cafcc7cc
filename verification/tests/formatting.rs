use border_crossings::data::{BorderCrossing, Record, Region, Source};
use border_crossings::report::{
    border_crossing_to_string, border_crossings_report, display_border_crossings, u64_to_string,
};

const DAY: i64 = 86_400_000;
const HOUR: i64 = 3_600_000;

fn france() -> Region {
    Region::CountryCode { code: "FR".to_string(), name: "France".to_string() }
}

#[test]
fn decimal_rendering_of_small_and_large_numbers() {
    assert_eq!(u64_to_string(0), "0");
    assert_eq!(u64_to_string(7), "7");
    assert_eq!(u64_to_string(10), "10");
    assert_eq!(u64_to_string(304), "304");
    assert_eq!(u64_to_string(18446744073709551615), "18446744073709551615");
}

#[test]
fn block_for_the_last_crossing_reports_an_unknown_duration() {
    let crossing = BorderCrossing { timestamp: 0, new_regions: vec![Region::MissingData] };
    let block = border_crossing_to_string(&crossing, &None);
    assert_eq!(
        block,
        "Thu, 1 Jan 1970 00:00:00 +0000\n    |\n    | Missing Data\n    | Duration Unknown\n    |\n"
    );
}

#[test]
fn blocks_at_the_ends_of_the_formattable_range() {
    // the formatter accepts exactly the instants of years 0 through 9999
    let earliest = BorderCrossing {
        timestamp: border_crossings::time::TS_FORMAT_MIN,
        new_regions: vec![france()],
    };
    let block = border_crossing_to_string(&earliest, &None);
    assert_eq!(
        block,
        "Sat, 1 Jan 0000 00:00:00 +0000\n    |\n    | France\n    | Duration Unknown\n    |\n"
    );
    let latest = BorderCrossing {
        timestamp: border_crossings::time::TS_FORMAT_MAX,
        new_regions: vec![france()],
    };
    let block = border_crossing_to_string(&latest, &None);
    assert_eq!(
        block,
        "Fri, 31 Dec 9999 23:59:59 +0000\n    |\n    | France\n    | Duration Unknown\n    |\n"
    );
}

#[test]
fn block_duration_counts_whole_days_truncating() {
    let crossing = BorderCrossing { timestamp: 0, new_regions: vec![france()] };
    let next = BorderCrossing { timestamp: 3 * DAY + 12 * HOUR, new_regions: vec![Region::MissingData] };
    let block = border_crossing_to_string(&crossing, &Some(&next));
    assert_eq!(
        block,
        "Thu, 1 Jan 1970 00:00:00 +0000\n    |\n    | France\n    | Duration: 3 Days\n    |\n"
    );
}

#[test]
fn block_lists_every_region_in_order() {
    let crossing = BorderCrossing {
        timestamp: 1424301369000,
        new_regions: vec![
            Region::CountryCode { code: "US".to_string(), name: "United States of America".to_string() },
            Region::Subdivision { code: "US-CA".to_string(), name: "California".to_string() },
        ],
    };
    let block = border_crossing_to_string(&crossing, &None);
    assert_eq!(
        block,
        "Wed, 18 Feb 2015 23:16:09 +0000\n    |\n    | United States of America\n    | California\n    | Duration Unknown\n    |\n"
    );
}

#[test]
fn report_concatenates_one_block_per_crossing() {
    let first = BorderCrossing { timestamp: 0, new_regions: vec![france()] };
    let second = BorderCrossing { timestamp: 2 * DAY, new_regions: vec![Region::MissingData] };
    let report = display_border_crossings(&vec![first, second]);
    let expected_first = "Thu, 1 Jan 1970 00:00:00 +0000\n    |\n    | France\n    | Duration: 2 Days\n    |\n";
    let expected_second = "Sat, 3 Jan 1970 00:00:00 +0000\n    |\n    | Missing Data\n    | Duration Unknown\n    |\n";
    assert_eq!(report, format!("{expected_first}{expected_second}"));
}

#[test]
fn full_pipeline_report_for_no_samples_is_empty() {
    let report = border_crossings_report(vec![], &vec![], false, false);
    assert_eq!(report, "");
}

#[test]
fn full_pipeline_report_for_one_sample() {
    let record = Record {
        latitude_e7: 485864138,
        longitude_e7: 22945412,
        timestamp: 0,
        source: Source::GPS,
        regions: vec![france()],
    };
    let report = border_crossings_report(vec![record], &vec![], false, false);
    assert_eq!(
        report,
        "Thu, 1 Jan 1970 00:00:00 +0000\n    |\n    | France\n    | Duration Unknown\n    |\n"
    );
}

#[test]
fn full_pipeline_applies_source_exclusion() {
    let gps = Record {
        latitude_e7: 0,
        longitude_e7: 0,
        timestamp: 0,
        source: Source::GPS,
        regions: vec![france()],
    };
    let wifi = Record {
        latitude_e7: 0,
        longitude_e7: 0,
        timestamp: HOUR,
        source: Source::WIFI,
        regions: vec![Region::CountryCode {
            code: "DE".to_string(),
            name: "Germany".to_string(),
        }],
    };
    let report = border_crossings_report(vec![gps, wifi], &vec![Source::WIFI], false, false);
    assert_eq!(
        report,
        "Thu, 1 Jan 1970 00:00:00 +0000\n    |\n    | France\n    | Duration Unknown\n    |\n"
    );
}

#[test]
fn full_pipeline_suppresses_missing_data_when_asked() {
    let a = Record {
        latitude_e7: 0,
        longitude_e7: 0,
        timestamp: 0,
        source: Source::GPS,
        regions: vec![france()],
    };
    let b = Record {
        latitude_e7: 0,
        longitude_e7: 0,
        timestamp: 2 * DAY,
        source: Source::GPS,
        regions: vec![france()],
    };
    let with_missing = border_crossings_report(
        vec![a.clone(), b.clone()],
        &vec![],
        false,
        false,
    );
    assert!(with_missing.contains("Missing Data"));
    // with the gap crossings suppressed, the two France crossings collapse
    let without_missing = border_crossings_report(vec![a, b], &vec![], false, true);
    assert_eq!(
        without_missing,
        "Thu, 1 Jan 1970 00:00:00 +0000\n    |\n    | France\n    | Duration Unknown\n    |\n"
    );
}
