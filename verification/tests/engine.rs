use border_crossings::data::{region_matches, BorderCrossing, Record, Region, Source};
use border_crossings::detect::{records_to_border_crossings, sort_records_by_timestamp};
use border_crossings::filter::{
    collapse_consecutive_duplicates, compare_and_retain, exclude_sources, suppress_missing_data,
    suppress_subregion_crossings,
};

const DAY: i64 = 86_400_000;
const HOUR: i64 = 3_600_000;
const T0: i64 = 1_000_000_000_000;

fn country(code: &str) -> Region {
    Region::CountryCode { code: code.to_string(), name: format!("Country {code}") }
}

fn state(code: &str) -> Region {
    Region::Subdivision { code: code.to_string(), name: format!("State {code}") }
}

fn record(timestamp: i64, source: Source, regions: Vec<Region>) -> Record {
    Record { latitude_e7: 0, longitude_e7: 0, timestamp, source, regions }
}

fn crossing(timestamp: i64, regions: Vec<Region>) -> BorderCrossing {
    BorderCrossing { timestamp, new_regions: regions }
}

fn same_regions(a: &Vec<Region>, b: &Vec<Region>) -> bool {
    a.len() == b.len() && a.iter().zip(b.iter()).all(|(x, y)| region_matches(x, y))
}

#[test]
fn no_samples_yield_no_crossings() {
    let crossings = records_to_border_crossings(&vec![]);
    assert_eq!(crossings.len(), 0);
}

#[test]
fn empty_region_sets_are_ordinary_sets_for_the_diff_rule() {
    // a point outside every known boundary resolves to the empty set; moving
    // from a region into the open is not a crossing (nothing is added), while
    // moving from the open into a region is
    let records = vec![
        record(T0, Source::GPS, vec![]),
        record(T0 + HOUR, Source::GPS, vec![]),
        record(T0 + 2 * HOUR, Source::GPS, vec![country("FR")]),
        record(T0 + 3 * HOUR, Source::GPS, vec![]),
    ];
    let crossings = records_to_border_crossings(&records);
    assert_eq!(crossings.len(), 2);
    assert_eq!(crossings[0].timestamp, T0);
    assert!(crossings[0].new_regions.is_empty());
    assert_eq!(crossings[1].timestamp, T0 + 2 * HOUR);
}

#[test]
fn first_sample_always_yields_a_crossing() {
    let records = vec![record(T0, Source::GPS, vec![country("FR")])];
    let crossings = records_to_border_crossings(&records);
    assert_eq!(crossings.len(), 1);
    assert_eq!(crossings[0].timestamp, T0);
    assert!(same_regions(&crossings[0].new_regions, &vec![country("FR")]));
}

#[test]
fn gap_of_exactly_one_day_emits_missing_data_and_reentry() {
    let records = vec![
        record(T0, Source::GPS, vec![country("FR")]),
        record(T0 + DAY, Source::GPS, vec![country("FR")]),
    ];
    let crossings = records_to_border_crossings(&records);
    assert_eq!(crossings.len(), 3);
    assert_eq!(crossings[0].timestamp, T0);
    assert!(same_regions(&crossings[0].new_regions, &vec![country("FR")]));
    assert_eq!(crossings[1].timestamp, T0 + DAY);
    assert!(same_regions(&crossings[1].new_regions, &vec![Region::MissingData]));
    assert_eq!(crossings[2].timestamp, T0 + DAY);
    assert!(same_regions(&crossings[2].new_regions, &vec![country("FR")]));
}

#[test]
fn no_crossing_for_an_unchanged_region_set_within_a_day() {
    let records = vec![
        record(T0, Source::GPS, vec![country("FR")]),
        record(T0 + 2 * HOUR, Source::GPS, vec![country("FR")]),
    ];
    let crossings = records_to_border_crossings(&records);
    assert_eq!(crossings.len(), 1);
    assert_eq!(crossings[0].timestamp, T0);
}

#[test]
fn france_three_day_gap_scenario() {
    let records = vec![
        record(T0, Source::GPS, vec![country("FR")]),
        record(T0 + 2 * HOUR, Source::GPS, vec![country("FR")]),
        record(T0 + 3 * DAY, Source::GPS, vec![country("FR")]),
    ];
    let crossings = records_to_border_crossings(&records);
    assert_eq!(crossings.len(), 3);
    assert_eq!(crossings[0].timestamp, T0);
    assert!(same_regions(&crossings[0].new_regions, &vec![country("FR")]));
    // the gap is measured from the sample that precedes it
    assert_eq!(crossings[1].timestamp, T0 + 2 * HOUR + DAY);
    assert!(same_regions(&crossings[1].new_regions, &vec![Region::MissingData]));
    // re-entry into the unchanged region set, because the previous crossing
    // carried the missing-data marker
    assert_eq!(crossings[2].timestamp, T0 + 3 * DAY);
    assert!(same_regions(&crossings[2].new_regions, &vec![country("FR")]));
}

#[test]
fn excluding_wifi_leaves_a_single_initial_crossing() {
    let records = vec![
        record(T0, Source::GPS, vec![country("AA")]),
        record(T0 + HOUR, Source::WIFI, vec![country("BB")]),
    ];
    let kept = exclude_sources(&records, &vec![Source::WIFI]);
    assert_eq!(kept.len(), 1);
    let crossings = records_to_border_crossings(&kept);
    assert_eq!(crossings.len(), 1);
    assert_eq!(crossings[0].timestamp, T0);
    assert!(same_regions(&crossings[0].new_regions, &vec![country("AA")]));
}

#[test]
fn detector_output_is_sorted_for_sorted_input() {
    let records = vec![
        record(T0, Source::GPS, vec![country("AA")]),
        record(T0 + 2 * DAY, Source::GPS, vec![country("BB")]),
        record(T0 + 2 * DAY + HOUR, Source::GPS, vec![country("CC")]),
        record(T0 + 5 * DAY, Source::GPS, vec![country("CC")]),
    ];
    let crossings = records_to_border_crossings(&records);
    for pair in crossings.windows(2) {
        assert!(pair[0].timestamp <= pair[1].timestamp);
    }
}

#[test]
fn pairwise_filter_always_keeps_the_first_element() {
    let crossings = vec![
        crossing(T0, vec![country("AA")]),
        crossing(T0 + HOUR, vec![country("BB")]),
        crossing(T0 + 2 * HOUR, vec![country("CC")]),
    ];
    let none_kept = compare_and_retain(&crossings, |_c: &BorderCrossing, _p: &BorderCrossing| {
        false
    });
    assert_eq!(none_kept.len(), 1);
    assert_eq!(none_kept[0].timestamp, T0);
    let all_kept = compare_and_retain(&crossings, |_c: &BorderCrossing, _p: &BorderCrossing| {
        true
    });
    assert_eq!(all_kept.len(), 3);
}

#[test]
fn pairwise_filter_compares_against_the_last_kept_element() {
    // keep an element only when it is at least two hours after the last kept
    let crossings = vec![
        crossing(T0, vec![country("AA")]),
        crossing(T0 + HOUR, vec![country("BB")]),
        crossing(T0 + 2 * HOUR, vec![country("CC")]),
        crossing(T0 + 3 * HOUR, vec![country("DD")]),
    ];
    let kept = compare_and_retain(&crossings, |c: &BorderCrossing, p: &BorderCrossing| {
        c.timestamp - p.timestamp >= 2 * 3_600_000
    });
    assert_eq!(kept.len(), 2);
    assert_eq!(kept[0].timestamp, T0);
    assert_eq!(kept[1].timestamp, T0 + 2 * HOUR);
}

#[test]
fn duplicate_collapse_is_idempotent() {
    let crossings = vec![
        crossing(T0, vec![country("AA")]),
        crossing(T0 + HOUR, vec![country("AA")]),
        crossing(T0 + 2 * HOUR, vec![country("BB")]),
        crossing(T0 + 3 * HOUR, vec![country("BB")]),
        crossing(T0 + 4 * HOUR, vec![country("AA")]),
    ];
    let once = collapse_consecutive_duplicates(&crossings);
    let twice = collapse_consecutive_duplicates(&once);
    assert_eq!(once.len(), 3);
    assert_eq!(once.len(), twice.len());
    for (a, b) in once.iter().zip(twice.iter()) {
        assert_eq!(a.timestamp, b.timestamp);
        assert!(same_regions(&a.new_regions, &b.new_regions));
    }
}

#[test]
fn subregion_suppression_before_dedup_differs_from_dedup_alone() {
    // a move between states of one country, then a move to another country
    let records = vec![
        record(T0, Source::GPS, vec![country("AA"), state("AA-X")]),
        record(T0 + HOUR, Source::GPS, vec![country("AA"), state("AA-Y")]),
        record(T0 + 2 * HOUR, Source::GPS, vec![country("BB")]),
    ];
    let detected = records_to_border_crossings(&records);
    assert_eq!(detected.len(), 3);

    // dedup alone keeps every crossing: each adds a new region
    let dedup_only = collapse_consecutive_duplicates(&detected);
    assert_eq!(dedup_only.len(), 3);

    // subregion suppression drops the state-only transition, and the first
    // and the country-level transition survive the final collapse
    let suppressed = suppress_subregion_crossings(&detected);
    let suppressed_then_collapsed = collapse_consecutive_duplicates(&suppressed);
    assert_eq!(suppressed_then_collapsed.len(), 2);
    assert_eq!(suppressed_then_collapsed[0].timestamp, T0);
    assert_eq!(suppressed_then_collapsed[1].timestamp, T0 + 2 * HOUR);
    assert!(suppressed_then_collapsed.len() < dedup_only.len());
}

#[test]
fn missing_data_suppression_drops_only_pure_missing_crossings() {
    let crossings = vec![
        crossing(T0, vec![country("AA")]),
        crossing(T0 + HOUR, vec![Region::MissingData]),
        crossing(T0 + 2 * HOUR, vec![country("AA"), Region::MissingData]),
    ];
    let kept = suppress_missing_data(&crossings);
    assert_eq!(kept.len(), 2);
    assert_eq!(kept[0].timestamp, T0);
    assert_eq!(kept[1].timestamp, T0 + 2 * HOUR);
}

#[test]
fn dropping_missing_data_then_collapsing_merges_the_surrounding_crossings() {
    let crossings = vec![
        crossing(T0, vec![country("AA")]),
        crossing(T0 + DAY, vec![Region::MissingData]),
        crossing(T0 + 2 * DAY, vec![country("AA")]),
    ];
    let without_missing = suppress_missing_data(&crossings);
    assert_eq!(without_missing.len(), 2);
    let collapsed = collapse_consecutive_duplicates(&without_missing);
    assert_eq!(collapsed.len(), 1);
    assert_eq!(collapsed[0].timestamp, T0);
}

#[test]
fn sort_orders_by_timestamp_and_keeps_equal_instants_stable() {
    let records = vec![
        record(T0 + HOUR, Source::GPS, vec![country("BB")]),
        record(T0, Source::GPS, vec![country("AA")]),
        record(T0 + HOUR, Source::WIFI, vec![country("CC")]),
    ];
    let sorted = sort_records_by_timestamp(records);
    assert_eq!(sorted.len(), 3);
    assert_eq!(sorted[0].timestamp, T0);
    assert_eq!(sorted[1].timestamp, T0 + HOUR);
    assert_eq!(sorted[2].timestamp, T0 + HOUR);
    // the two equal instants keep their input order
    assert!(matches!(sorted[1].source, Source::GPS));
    assert!(matches!(sorted[2].source, Source::WIFI));
}
