//! The value types of the engine: fix sources, resolved regions, normalized
//! location samples, and border-crossing events.

use vstd::prelude::*;

use crate::json::{JsonRecord, JsonSource};
use crate::time::parse_timestamp_millis;
use crate::time::parsed_ts_millis;

verus! {

/// The technology that produced a location fix. `NONE` records that the raw
/// record carried no source at all; `UNKNOWN` stands for a source tag that
/// was present in the input but is not one the engine recognizes.
#[derive(Clone, Copy, Debug, PartialEq, Eq, Structural, Hash)]
pub enum Source {
    WIFI,
    GPS,
    CELL,
    UNKNOWN,
    NONE,
}

/// How an optional raw source tag is classified as a [`Source`].
pub open spec fn spec_source_of(json: Option<JsonSource>) -> Source {
    match json {
        Some(JsonSource::Wifi) => Source::WIFI,
        Some(JsonSource::GPS) => Source::GPS,
        Some(JsonSource::Cell) => Source::CELL,
        Some(JsonSource::Unknown) => Source::UNKNOWN,
        Some(JsonSource::VisitDeparture) => Source::UNKNOWN,
        Some(JsonSource::VisitArrival) => Source::UNKNOWN,
        Some(JsonSource::Manual) => Source::UNKNOWN,
        None => Source::NONE,
    }
}

impl Source {
    /// Classifies the optional source tag of a raw record: absent tags map to
    /// `NONE`, and recorded tags other than wifi, GPS and cell map to
    /// `UNKNOWN`.
    pub fn from_json_source(json: &Option<JsonSource>) -> (s: Self)
        ensures
            s == spec_source_of(*json),
    {
        match json {
            Some(JsonSource::Wifi) => Source::WIFI,
            Some(JsonSource::GPS) => Source::GPS,
            Some(JsonSource::Cell) => Source::CELL,
            Some(JsonSource::Unknown) => Source::UNKNOWN,
            Some(JsonSource::VisitDeparture) => Source::UNKNOWN,
            Some(JsonSource::VisitArrival) => Source::UNKNOWN,
            Some(JsonSource::Manual) => Source::UNKNOWN,
            None => Source::NONE,
        }
    }
}

/// A resolved administrative identity, or the sentinel meaning "no location
/// data was available for this interval". Each geographic variant carries the
/// boundary-lookup code it was resolved from and the table's display name.
#[derive(Debug)]
pub enum Region {
    CountryCode { code: String, name: String },
    Subdivision { code: String, name: String },
    Obsolete { code: String, name: String },
    UnknownCode(String),
    MissingData,
}

/// The mathematical shape of a [`Region`]: the same variants over character
/// sequences.
pub enum RegionV {
    Country { code: Seq<char>, name: Seq<char> },
    Subdivision { code: Seq<char>, name: Seq<char> },
    Obsolete { code: Seq<char>, name: Seq<char> },
    Unknown { code: Seq<char> },
    MissingData,
}

impl View for Region {
    type V = RegionV;

    open spec fn view(&self) -> RegionV {
        match self {
            Region::CountryCode { code, name } => RegionV::Country { code: code@, name: name@ },
            Region::Subdivision { code, name } => RegionV::Subdivision {
                code: code@,
                name: name@,
            },
            Region::Obsolete { code, name } => RegionV::Obsolete { code: code@, name: name@ },
            Region::UnknownCode(code) => RegionV::Unknown { code: code@ },
            Region::MissingData => RegionV::MissingData,
        }
    }
}

impl DeepView for Region {
    type V = RegionV;

    open spec fn deep_view(&self) -> RegionV {
        self.view()
    }
}

impl Clone for Region {
    fn clone(&self) -> (res: Self)
        ensures
            res == *self,
    {
        match self {
            Region::CountryCode { code, name } => Region::CountryCode {
                code: code.clone(),
                name: name.clone(),
            },
            Region::Subdivision { code, name } => Region::Subdivision {
                code: code.clone(),
                name: name.clone(),
            },
            Region::Obsolete { code, name } => Region::Obsolete {
                code: code.clone(),
                name: name.clone(),
            },
            Region::UnknownCode(code) => Region::UnknownCode(code.clone()),
            Region::MissingData => Region::MissingData,
        }
    }
}

/// What `rust_iso3166::from_alpha2` returns for a code: the English short
/// name of the country, if the code is an ISO 3166-1 alpha-2 code. A lookup
/// in a fixed table, so the result depends on the code alone.
pub uninterp spec fn country_name_of(code: Seq<char>) -> Option<Seq<char>>;

/// What `rust_iso3166::iso3166_2::from_code` returns for a code: the name of
/// the subdivision, if the code is an ISO 3166-2 subdivision code. A lookup
/// in a fixed table, so the result depends on the code alone.
pub uninterp spec fn subdivision_name_of(code: Seq<char>) -> Option<Seq<char>>;

/// What `rust_iso3166::iso3166_3::from_code` returns for a code: the former
/// name of the country, if the code is an ISO 3166-3 code for a retired
/// identity. A lookup in a fixed table, so the result depends on the code
/// alone.
pub uninterp spec fn obsolete_name_of(code: Seq<char>) -> Option<Seq<char>>;

/// Relies on `rust_iso3166::from_alpha2`: a lookup in the fixed ISO 3166-1
/// table, keyed by alpha-2 code.
#[verifier::external_body]
fn lookup_country_name(code: &str) -> (r: Option<String>)
    ensures
        r is Some <==> country_name_of(code@) is Some,
        r is Some ==> r->0@ == country_name_of(code@)->0,
{
    match rust_iso3166::from_alpha2(code) {
        Some(c) => Some(c.name.to_string()),
        None => None,
    }
}

/// Relies on `rust_iso3166::iso3166_2::from_code`: a lookup in the fixed
/// ISO 3166-2 subdivision table.
#[verifier::external_body]
fn lookup_subdivision_name(code: &str) -> (r: Option<String>)
    ensures
        r is Some <==> subdivision_name_of(code@) is Some,
        r is Some ==> r->0@ == subdivision_name_of(code@)->0,
{
    match rust_iso3166::iso3166_2::from_code(code) {
        Some(s) => Some(s.name.to_string()),
        None => None,
    }
}

/// Relies on `rust_iso3166::iso3166_3::from_code`: a lookup in the fixed
/// ISO 3166-3 table of retired codes.
#[verifier::external_body]
fn lookup_obsolete_name(code: &str) -> (r: Option<String>)
    ensures
        r is Some <==> obsolete_name_of(code@) is Some,
        r is Some ==> r->0@ == obsolete_name_of(code@)->0,
{
    match rust_iso3166::iso3166_3::from_code(code) {
        Some(o) => Some(o.name.to_string()),
        None => None,
    }
}

/// How a boundary-lookup code is classified: the tables are consulted in the
/// order country, subdivision, obsolete, and a code that matches none of them
/// is kept verbatim.
pub open spec fn spec_region_from_code(code: Seq<char>) -> RegionV {
    if country_name_of(code) is Some {
        RegionV::Country { code, name: country_name_of(code)->0 }
    } else if subdivision_name_of(code) is Some {
        RegionV::Subdivision { code, name: subdivision_name_of(code)->0 }
    } else if obsolete_name_of(code) is Some {
        RegionV::Obsolete { code, name: obsolete_name_of(code)->0 }
    } else {
        RegionV::Unknown { code }
    }
}

impl Region {
    /// Decodes a boundary-lookup code against the country, subdivision and
    /// obsolete-code tables, in that precedence order.
    pub fn from_code(code: &str) -> (r: Self)
        ensures
            r@ == spec_region_from_code(code@),
    {
        let opt_cc = lookup_country_name(code);
        let opt_sub = lookup_subdivision_name(code);
        let opt_obs = lookup_obsolete_name(code);

        if let Some(name) = opt_cc {
            Region::CountryCode { code: code.to_owned(), name }
        } else if let Some(name) = opt_sub {
            Region::Subdivision { code: code.to_owned(), name }
        } else if let Some(name) = opt_obs {
            Region::Obsolete { code: code.to_owned(), name }
        } else {
            Region::UnknownCode(code.to_owned())
        }
    }

    /// Whether this region is of subdivision granularity.
    pub fn is_subregion(&self) -> (r: bool)
        ensures
            r == (self@ is Subdivision),
    {
        match self {
            Region::Subdivision { .. } => true,
            _ => false,
        }
    }

    /// Returns the human-readable name of this region: the table's display
    /// name, the raw code for an unrecognized code, or the literal string
    /// "Missing Data".
    pub fn display_name(&self) -> (r: String)
        ensures
            r@ == spec_display_name(self@),
    {
        match self {
            Region::CountryCode { code: _, name } => name.clone(),
            Region::Subdivision { code: _, name } => name.clone(),
            Region::Obsolete { code: _, name } => name.clone(),
            Region::UnknownCode(code) => code.clone(),
            Region::MissingData => String::from_str("Missing Data"),
        }
    }
}

/// The text that stands for a region in the rendered report.
pub open spec fn spec_display_name(r: RegionV) -> Seq<char> {
    match r {
        RegionV::Country { code: _, name } => name,
        RegionV::Subdivision { code: _, name } => name,
        RegionV::Obsolete { code: _, name } => name,
        RegionV::Unknown { code } => code,
        RegionV::MissingData => "Missing Data"@,
    }
}

/// Decides whether two regions are the same identity: the same variant with
/// the same payload.
pub fn region_matches(a: &Region, b: &Region) -> (r: bool)
    ensures
        r == (a@ == b@),
{
    match (a, b) {
        (
            Region::CountryCode { code: ca, name: na },
            Region::CountryCode { code: cb, name: nb },
        ) => *ca == *cb && *na == *nb,
        (
            Region::Subdivision { code: ca, name: na },
            Region::Subdivision { code: cb, name: nb },
        ) => *ca == *cb && *na == *nb,
        (Region::Obsolete { code: ca, name: na }, Region::Obsolete { code: cb, name: nb }) => (*ca
            == *cb) && *na == *nb,
        (Region::UnknownCode(ca), Region::UnknownCode(cb)) => *ca == *cb,
        (Region::MissingData, Region::MissingData) => true,
        _ => false,
    }
}

/// Whether the region set `regions` contains the identity `r`.
pub fn contains_region(regions: &Vec<Region>, r: &Region) -> (b: bool)
    ensures
        b == regions.deep_view().contains(r@),
{
    let mut i: usize = 0;
    while i < regions.len()
        invariant
            0 <= i <= regions.len(),
            forall|j: int| 0 <= j < i ==> regions.deep_view()[j] != r@,
        decreases regions.len() - i,
    {
        if region_matches(&regions[i], r) {
            assert(regions.deep_view()[i as int] == r@);
            return true;
        }
        i += 1;
    }
    false
}

/// Whether every identity in the region set `a` also occurs in `b` — that is,
/// whether the set difference `a − b` is empty.
pub open spec fn region_set_subset(a: Seq<RegionV>, b: Seq<RegionV>) -> bool {
    forall|r: RegionV| a.contains(r) ==> b.contains(r)
}

/// Decides whether the set difference `a − b` is empty.
pub fn region_set_is_subset(a: &Vec<Region>, b: &Vec<Region>) -> (r: bool)
    ensures
        r == region_set_subset(a.deep_view(), b.deep_view()),
{
    let mut i: usize = 0;
    while i < a.len()
        invariant
            0 <= i <= a.len(),
            forall|j: int| 0 <= j < i ==> b.deep_view().contains(#[trigger] a.deep_view()[j]),
        decreases a.len() - i,
    {
        if !contains_region(b, &a[i]) {
            assert(a.deep_view().contains(a.deep_view()[i as int]));
            return false;
        }
        i += 1;
    }
    assert forall|r: RegionV| a.deep_view().contains(r) implies b.deep_view().contains(r) by {
        let j = choose|j: int| 0 <= j < a.deep_view().len() && a.deep_view()[j] == r;
        assert(b.deep_view().contains(a.deep_view()[j]));
    }
    true
}

/// Copies a region set, element for element.
pub fn clone_regions(regions: &Vec<Region>) -> (r: Vec<Region>)
    ensures
        r@ == regions@,
{
    let mut out: Vec<Region> = Vec::new();
    let mut i: usize = 0;
    while i < regions.len()
        invariant
            0 <= i <= regions.len(),
            out@ =~= regions@.take(i as int),
        decreases regions.len() - i,
    {
        out.push(regions[i].clone());
        i += 1;
    }
    assert(out@ =~= regions@);
    out
}

/// A normalized location fix: fixed-point coordinates, the instant of the
/// fix, the technology that produced it, and the set of regions whose
/// boundary contains the point. The region set is established at
/// construction and never changed afterwards.
#[derive(Debug)]
pub struct Record {
    /// Latitude in degrees scaled by ten million.
    pub latitude_e7: i64,
    /// Longitude in degrees scaled by ten million.
    pub longitude_e7: i64,
    /// Milliseconds since the Unix epoch, UTC.
    pub timestamp: i64,
    pub source: Source,
    pub regions: Vec<Region>,
}

/// The mathematical shape of a [`Record`].
pub struct RecordV {
    pub latitude_e7: int,
    pub longitude_e7: int,
    pub timestamp: int,
    pub source: Source,
    pub regions: Seq<RegionV>,
}

impl View for Record {
    type V = RecordV;

    open spec fn view(&self) -> RecordV {
        RecordV {
            latitude_e7: self.latitude_e7 as int,
            longitude_e7: self.longitude_e7 as int,
            timestamp: self.timestamp as int,
            source: self.source,
            regions: self.regions.deep_view(),
        }
    }
}

impl DeepView for Record {
    type V = RecordV;

    open spec fn deep_view(&self) -> RecordV {
        self.view()
    }
}

impl Clone for Record {
    fn clone(&self) -> (res: Self)
        ensures
            res@ == self@,
    {
        Record {
            latitude_e7: self.latitude_e7,
            longitude_e7: self.longitude_e7,
            timestamp: self.timestamp,
            source: self.source,
            regions: clone_regions(&self.regions),
        }
    }
}

/// The error raised when a raw record's timestamp string cannot be parsed:
/// the input is malformed and no correct report can be produced from it.
#[derive(Debug)]
pub struct TimestampParseError {
    /// The timestamp string that failed to parse.
    pub timestamp: String,
}

/// The region set resolved from a sequence of boundary-lookup codes: each
/// code decoded in order, with identities already seen kept only once.
pub open spec fn spec_regions_of_codes(codes: Seq<Seq<char>>) -> Seq<RegionV>
    decreases codes.len(),
{
    if codes.len() == 0 {
        Seq::empty()
    } else {
        let prefix = spec_regions_of_codes(codes.drop_last());
        let r = spec_region_from_code(codes.last());
        if prefix.contains(r) {
            prefix
        } else {
            prefix.push(r)
        }
    }
}

/// Decodes the boundary-lookup codes of one fix into a duplicate-free region
/// set, keeping the first occurrence of each identity.
pub fn regions_of_codes(codes: &Vec<String>) -> (r: Vec<Region>)
    ensures
        r.deep_view() == spec_regions_of_codes(codes.deep_view()),
{
    let mut out: Vec<Region> = Vec::new();
    let mut i: usize = 0;
    while i < codes.len()
        invariant
            0 <= i <= codes.len(),
            out.deep_view() =~= spec_regions_of_codes(codes.deep_view().take(i as int)),
        decreases codes.len() - i,
    {
        let region = Region::from_code(codes[i].as_str());
        proof {
            assert(codes.deep_view().take(i + 1).drop_last() =~= codes.deep_view().take(i as int));
            assert(codes.deep_view().take(i + 1).last() == codes.deep_view()[i as int]);
        }
        if !contains_region(&out, &region) {
            out.push(region);
        }
        i += 1;
    }
    assert(codes.deep_view().take(codes.len() as int) =~= codes.deep_view());
    out
}

impl Record {
    /// Builds a normalized sample from a raw record and the boundary-lookup
    /// codes resolved for its coordinates. A record that lacks either
    /// coordinate is dropped (`Ok(None)`); a record whose timestamp string
    /// does not parse is a fatal error.
    pub fn from_json(json: &JsonRecord, region_codes: &Vec<String>) -> (r: Result<
        Option<Record>,
        TimestampParseError,
    >)
        ensures
            match r {
                Ok(Some(rec)) => {
                    &&& json.latitude is Some
                    &&& json.longitude is Some
                    &&& parsed_ts_millis(json.timestamp@) is Some
                    &&& rec.latitude_e7 == json.latitude->0
                    &&& rec.longitude_e7 == json.longitude->0
                    &&& rec.timestamp == parsed_ts_millis(json.timestamp@)->0
                    &&& rec.source == spec_source_of(json.source)
                    &&& rec.regions.deep_view() == spec_regions_of_codes(region_codes.deep_view())
                },
                Ok(None) => json.latitude is None || json.longitude is None,
                Err(e) => {
                    &&& json.latitude is Some
                    &&& json.longitude is Some
                    &&& parsed_ts_millis(json.timestamp@) is None
                    &&& e.timestamp@ == json.timestamp@
                },
            },
    {
        if let (Some(latitude), Some(longitude)) = (json.latitude, json.longitude) {
            match parse_timestamp_millis(json.timestamp.as_str()) {
                Some(ts) => Ok(
                    Some(
                        Record {
                            latitude_e7: latitude,
                            longitude_e7: longitude,
                            timestamp: ts,
                            source: Source::from_json_source(&json.source),
                            regions: regions_of_codes(region_codes),
                        },
                    ),
                ),
                None => Err(TimestampParseError { timestamp: json.timestamp.clone() }),
            }
        } else {
            Ok(None)
        }
    }

    /// Returns this sample's region set.
    pub fn regions(&self) -> (r: Vec<Region>)
        ensures
            r@ == self.regions@,
    {
        clone_regions(&self.regions)
    }
}

/// One border-crossing event: the instant the location entered a new region
/// context, and the full region set in effect from that instant on.
#[derive(Debug)]
pub struct BorderCrossing {
    /// Milliseconds since the Unix epoch, UTC.
    pub timestamp: i64,
    pub new_regions: Vec<Region>,
}

/// The mathematical shape of a [`BorderCrossing`].
pub struct CrossingV {
    pub timestamp: int,
    pub new_regions: Seq<RegionV>,
}

impl View for BorderCrossing {
    type V = CrossingV;

    open spec fn view(&self) -> CrossingV {
        CrossingV { timestamp: self.timestamp as int, new_regions: self.new_regions.deep_view() }
    }
}

impl DeepView for BorderCrossing {
    type V = CrossingV;

    open spec fn deep_view(&self) -> CrossingV {
        self.view()
    }
}

impl Clone for BorderCrossing {
    fn clone(&self) -> (res: Self)
        ensures
            res@ == self@,
    {
        BorderCrossing {
            timestamp: self.timestamp,
            new_regions: clone_regions(&self.new_regions),
        }
    }
}

/// The crossing that a sample gives rise to: the sample's instant and its
/// full region set.
pub open spec fn spec_crossing_of(r: RecordV) -> CrossingV {
    CrossingV { timestamp: r.timestamp, new_regions: r.regions }
}

impl BorderCrossing {
    /// Builds the crossing event that reports `record`'s full region set at
    /// `record`'s instant.
    pub fn from(record: &Record) -> (r: Self)
        ensures
            r@ == spec_crossing_of(record@),
    {
        BorderCrossing { timestamp: record.timestamp, new_regions: record.regions() }
    }
}

} // verus!
