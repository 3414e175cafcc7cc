use border_crossings::data::{BorderCrossing, Record, Region, Source};
use border_crossings::json::{JsonRecord, JsonSource};

fn raw_record(
    latitude: Option<i64>,
    longitude: Option<i64>,
    source: Option<JsonSource>,
    timestamp: &str,
) -> JsonRecord {
    JsonRecord {
        latitude,
        longitude,
        accuracy: None,
        vertical_accuracy: None,
        source,
        timestamp: timestamp.to_string(),
    }
}

fn france() -> Region {
    Region::CountryCode { code: "FR".to_string(), name: "France".to_string() }
}

#[test]
fn from_code_country() {
    match Region::from_code("FR") {
        Region::CountryCode { code, name } => {
            assert_eq!(code, "FR");
            assert_eq!(name, "France");
        }
        other => panic!("expected a country, got {other:?}"),
    }
}

#[test]
fn from_code_subdivision() {
    match Region::from_code("US-CA") {
        Region::Subdivision { code, name } => {
            assert_eq!(code, "US-CA");
            assert_eq!(name, "California");
        }
        other => panic!("expected a subdivision, got {other:?}"),
    }
}

#[test]
fn from_code_obsolete() {
    match Region::from_code("PZPA") {
        Region::Obsolete { code, name } => {
            assert_eq!(code, "PZPA");
            assert_eq!(name, "Panama Canal Zone");
        }
        other => panic!("expected an obsolete code, got {other:?}"),
    }
}

#[test]
fn from_code_unknown() {
    match Region::from_code("ZZ") {
        Region::UnknownCode(code) => assert_eq!(code, "ZZ"),
        other => panic!("expected an unknown code, got {other:?}"),
    }
}

#[test]
fn from_json_source_maps_recognized_tags() {
    assert!(matches!(Source::from_json_source(&Some(JsonSource::Wifi)), Source::WIFI));
    assert!(matches!(Source::from_json_source(&Some(JsonSource::GPS)), Source::GPS));
    assert!(matches!(Source::from_json_source(&Some(JsonSource::Cell)), Source::CELL));
}

#[test]
fn from_json_source_maps_unrecognized_tags_to_unknown() {
    assert!(matches!(Source::from_json_source(&Some(JsonSource::Unknown)), Source::UNKNOWN));
    assert!(matches!(
        Source::from_json_source(&Some(JsonSource::VisitDeparture)),
        Source::UNKNOWN
    ));
    assert!(matches!(Source::from_json_source(&Some(JsonSource::VisitArrival)), Source::UNKNOWN));
    assert!(matches!(Source::from_json_source(&Some(JsonSource::Manual)), Source::UNKNOWN));
}

#[test]
fn from_json_source_maps_absent_tag_to_none() {
    assert!(matches!(Source::from_json_source(&None), Source::NONE));
}

#[test]
fn display_name_of_each_variant() {
    assert_eq!(france().display_name(), "France");
    assert_eq!(
        Region::Subdivision { code: "US-CA".to_string(), name: "California".to_string() }
            .display_name(),
        "California"
    );
    assert_eq!(Region::UnknownCode("ZZ".to_string()).display_name(), "ZZ");
    assert_eq!(Region::MissingData.display_name(), "Missing Data");
}

#[test]
fn is_subregion_only_for_subdivisions() {
    assert!(Region::Subdivision { code: "US-CA".to_string(), name: "California".to_string() }
        .is_subregion());
    assert!(!france().is_subregion());
    assert!(!Region::MissingData.is_subregion());
    assert!(!Region::UnknownCode("ZZ".to_string()).is_subregion());
}

#[test]
fn from_json_builds_a_record() {
    let raw = raw_record(
        Some(485864138),
        Some(22945412),
        Some(JsonSource::GPS),
        "2023-01-01T00:00:00Z",
    );
    let codes = vec!["FR".to_string()];
    let record = Record::from_json(&raw, &codes).unwrap().unwrap();
    assert_eq!(record.latitude_e7, 485864138);
    assert_eq!(record.longitude_e7, 22945412);
    assert_eq!(record.timestamp, 1672531200000);
    assert!(matches!(record.source, Source::GPS));
    assert_eq!(record.regions.len(), 1);
    assert!(border_crossings::data::region_matches(&record.regions[0], &france()));
}

#[test]
fn from_json_drops_a_record_without_coordinates() {
    let raw = raw_record(None, Some(22945412), None, "2023-01-01T00:00:00Z");
    assert!(Record::from_json(&raw, &vec![]).unwrap().is_none());
    let raw = raw_record(Some(485864138), None, None, "2023-01-01T00:00:00Z");
    assert!(Record::from_json(&raw, &vec![]).unwrap().is_none());
}

#[test]
fn from_json_rejects_a_malformed_timestamp() {
    let raw = raw_record(Some(485864138), Some(22945412), None, "not a date");
    let err = Record::from_json(&raw, &vec![]).unwrap_err();
    assert_eq!(err.timestamp, "not a date");
}

#[test]
fn from_json_keeps_each_region_once() {
    let raw = raw_record(Some(485864138), Some(22945412), None, "2023-01-01T00:00:00Z");
    let codes = vec!["FR".to_string(), "FR".to_string(), "ZZ".to_string()];
    let record = Record::from_json(&raw, &codes).unwrap().unwrap();
    assert_eq!(record.regions.len(), 2);
    assert!(border_crossings::data::region_matches(&record.regions[0], &france()));
    assert!(border_crossings::data::region_matches(
        &record.regions[1],
        &Region::UnknownCode("ZZ".to_string())
    ));
}

#[test]
fn regions_returns_the_stored_set() {
    let record = Record {
        latitude_e7: 0,
        longitude_e7: 0,
        timestamp: 0,
        source: Source::NONE,
        regions: vec![france()],
    };
    let regions = record.regions();
    assert_eq!(regions.len(), 1);
    assert!(border_crossings::data::region_matches(&regions[0], &france()));
}

#[test]
fn crossing_from_record_carries_instant_and_regions() {
    let record = Record {
        latitude_e7: 1,
        longitude_e7: 2,
        timestamp: 42,
        source: Source::GPS,
        regions: vec![france()],
    };
    let crossing = BorderCrossing::from(&record);
    assert_eq!(crossing.timestamp, 42);
    assert_eq!(crossing.new_regions.len(), 1);
    assert!(border_crossings::data::region_matches(&crossing.new_regions[0], &france()));
}

#[test]
fn region_matches_distinguishes_variants_and_payloads() {
    assert!(border_crossings::data::region_matches(&france(), &france()));
    assert!(!border_crossings::data::region_matches(
        &france(),
        &Region::CountryCode { code: "DE".to_string(), name: "Germany".to_string() }
    ));
    assert!(!border_crossings::data::region_matches(
        &france(),
        &Region::Subdivision { code: "FR".to_string(), name: "France".to_string() }
    ));
    assert!(border_crossings::data::region_matches(&Region::MissingData, &Region::MissingData));
}
