//! The report formatter, and the full engine pipeline that feeds it: source
//! exclusion, sorting, detection, the optional suppression stages, the
//! duplicate collapse, and finally one text block per retained crossing with
//! the whole days until the next one.

use vstd::prelude::*;

use crate::data::{spec_display_name, BorderCrossing, CrossingV, Record, RecordV, Region, Source};
use crate::detect::{
    crossings_sorted, lemma_detector_output_sorted, lemma_sort_by_timestamp, records_sorted,
    records_to_border_crossings, sort_records_by_timestamp, spec_detect, spec_sort_by_timestamp,
};
use crate::filter::{
    collapse_consecutive_duplicates, exclude_sources, lemma_collapse_is_pairwise,
    lemma_exclude_sources_members, lemma_pairwise_keeps_members,
    lemma_pairwise_keeps_sorted_crossings, lemma_suppress_missing_properties,
    lemma_suppress_subregions_is_pairwise, spec_collapse_duplicates, spec_exclude_sources,
    spec_suppress_missing, spec_suppress_subregions, suppress_missing_data,
    suppress_subregion_crossings,
};
use crate::time::{format_rfc2822, rfc2822_of, MILLIS_PER_DAY, TS_FORMAT_MAX, TS_FORMAT_MIN};

verus! {

/// The character of a single decimal digit.
pub open spec fn spec_digit_char(d: nat) -> char {
    if d == 0 {
        '0'
    } else if d == 1 {
        '1'
    } else if d == 2 {
        '2'
    } else if d == 3 {
        '3'
    } else if d == 4 {
        '4'
    } else if d == 5 {
        '5'
    } else if d == 6 {
        '6'
    } else if d == 7 {
        '7'
    } else if d == 8 {
        '8'
    } else {
        '9'
    }
}

/// The decimal rendering of `n`, most significant digit first, without
/// leading zeros (a lone zero for zero itself).
pub open spec fn spec_decimal_digits(n: nat) -> Seq<char>
    decreases n,
{
    if n < 10 {
        seq![spec_digit_char(n)]
    } else {
        spec_decimal_digits(n / 10).push(spec_digit_char(n % 10))
    }
}

/// The text of a single decimal digit.
fn digit_str(d: u64) -> (r: &'static str)
    requires
        d < 10,
    ensures
        r@ == seq![spec_digit_char(d as nat)],
{
    proof {
        reveal_strlit("0");
        reveal_strlit("1");
        reveal_strlit("2");
        reveal_strlit("3");
        reveal_strlit("4");
        reveal_strlit("5");
        reveal_strlit("6");
        reveal_strlit("7");
        reveal_strlit("8");
        reveal_strlit("9");
    }
    let r = match d {
        0 => "0",
        1 => "1",
        2 => "2",
        3 => "3",
        4 => "4",
        5 => "5",
        6 => "6",
        7 => "7",
        8 => "8",
        _ => "9",
    };
    proof {
        assert(r@ =~= seq![spec_digit_char(d as nat)]);
    }
    r
}

/// Renders `n` in decimal.
pub fn u64_to_string(n: u64) -> (r: String)
    ensures
        r@ == spec_decimal_digits(n as nat),
    decreases n,
{
    if n < 10 {
        String::from_str(digit_str(n))
    } else {
        proof {
            assert(n / 10 < n) by (nonlinear_arith)
                requires
                    n >= 10,
            ;
        }
        let prefix = u64_to_string(n / 10);
        let r = prefix.concat(digit_str(n % 10));
        proof {
            assert(r@ =~= spec_decimal_digits((n / 10) as nat).push(
                spec_digit_char((n % 10) as nat),
            ));
        }
        r
    }
}

/// The region list of one crossing block: one line per region, in the order
/// the set was resolved.
pub open spec fn spec_region_lines(regions: Seq<crate::data::RegionV>) -> Seq<char>
    decreases regions.len(),
{
    if regions.len() == 0 {
        Seq::empty()
    } else if regions.len() == 1 {
        "    | "@ + spec_display_name(regions[0])
    } else {
        spec_region_lines(regions.drop_last()) + "\n"@ + "    | "@ + spec_display_name(
            regions.last(),
        )
    }
}

/// Renders the region list of one crossing block.
pub fn region_lines(regions: &Vec<Region>) -> (r: String)
    ensures
        r@ == spec_region_lines(regions.deep_view()),
{
    let ghost rv = regions.deep_view();
    let mut out = String::new();
    let mut i: usize = 0;
    while i < regions.len()
        invariant
            0 <= i <= regions.len(),
            rv == regions.deep_view(),
            rv.len() == regions@.len(),
            out@ =~= spec_region_lines(rv.take(i as int)),
        decreases regions.len() - i,
    {
        proof {
            assert(rv.take(i + 1).drop_last() =~= rv.take(i as int));
            assert(rv.take(i + 1).last() == rv[i as int]);
            assert(rv[i as int] == regions@[i as int]@);
        }
        if i > 0 {
            out.append("\n");
        }
        out.append("    | ");
        let name = regions[i].display_name();
        out.append(name.as_str());
        proof {
            assert(out@ =~= spec_region_lines(rv.take(i + 1)));
        }
        i += 1;
    }
    proof {
        assert(rv.take(regions@.len() as int) =~= rv);
    }
    out
}

/// The duration line of one crossing block: the whole days until the next
/// retained crossing, or a note that no next crossing bounds the last one.
pub open spec fn spec_duration_line(c: CrossingV, next: Option<CrossingV>) -> Seq<char> {
    match next {
        Some(n) => "    | Duration: "@ + spec_decimal_digits(
            ((n.timestamp - c.timestamp) / (MILLIS_PER_DAY as int)) as nat,
        ) + " Days"@,
        None => "    | Duration Unknown"@,
    }
}

/// One report block: the crossing's instant in RFC 2822 form, its region
/// list, and the duration to the next retained crossing.
pub open spec fn spec_crossing_block(c: CrossingV, next: Option<CrossingV>) -> Seq<char> {
    rfc2822_of(c.timestamp as i64) + "\n"@ + "    |"@ + "\n"@ + spec_region_lines(c.new_regions)
        + "\n"@ + spec_duration_line(c, next) + "\n"@ + "    |\n"@
}

/// The view of an optional crossing reference.
pub open spec fn spec_opt_crossing_view(o: Option<&BorderCrossing>) -> Option<CrossingV> {
    match o {
        Some(c) => Some(c@),
        None => None,
    }
}

/// Renders one crossing as a report block. The timestamps must lie in the
/// formatter's range and the next crossing, if any, must not precede this
/// one.
pub fn border_crossing_to_string(
    crossing: &BorderCrossing,
    next_crossing: &Option<&BorderCrossing>,
) -> (r: String)
    requires
        TS_FORMAT_MIN <= crossing.timestamp <= TS_FORMAT_MAX,
        match *next_crossing {
            Some(n) => crossing.timestamp <= n.timestamp <= TS_FORMAT_MAX,
            None => true,
        },
    ensures
        r@ == spec_crossing_block(crossing@, spec_opt_crossing_view(*next_crossing)),
{
    let mut out = format_rfc2822(crossing.timestamp);
    out.append("\n");
    out.append("    |");
    out.append("\n");
    let regions_str = region_lines(&crossing.new_regions);
    out.append(regions_str.as_str());
    out.append("\n");
    match next_crossing {
        Some(next) => {
            let delta = next.timestamp - crossing.timestamp;
            let days = (delta as u64) / 86_400_000u64;
            proof {
                assert(days as nat == ((next@.timestamp - crossing@.timestamp) / (
                MILLIS_PER_DAY as int)) as nat);
            }
            out.append("    | Duration: ");
            let days_str = u64_to_string(days);
            out.append(days_str.as_str());
            out.append(" Days");
        },
        None => {
            out.append("    | Duration Unknown");
        },
    }
    out.append("\n");
    out.append("    |\n");
    proof {
        assert(out@ =~= spec_crossing_block(
            crossing@,
            spec_opt_crossing_view(*next_crossing),
        ));
    }
    out
}

/// The report text of the first `i` crossings, each paired with its
/// successor in the full sequence.
pub open spec fn spec_report_prefix(s: Seq<CrossingV>, i: int) -> Seq<char>
    decreases i,
{
    if i <= 0 {
        Seq::empty()
    } else {
        spec_report_prefix(s, i - 1) + spec_crossing_block(
            s[i - 1],
            if i < s.len() {
                Some(s[i])
            } else {
                None
            },
        )
    }
}

/// The whole report text of a crossing sequence.
pub open spec fn spec_report(s: Seq<CrossingV>) -> Seq<char> {
    spec_report_prefix(s, s.len() as int)
}

/// Whether every crossing's timestamp lies in the formatter's range.
pub open spec fn crossings_ts_in_range(s: Seq<CrossingV>) -> bool {
    forall|k: int|
        0 <= k < s.len() ==> TS_FORMAT_MIN <= (#[trigger] s[k]).timestamp <= TS_FORMAT_MAX
}

/// Renders the whole report: one block per crossing, in order.
pub fn display_border_crossings(crossings: &Vec<BorderCrossing>) -> (r: String)
    requires
        crossings_sorted(crossings.deep_view()),
        crossings_ts_in_range(crossings.deep_view()),
    ensures
        r@ == spec_report(crossings.deep_view()),
{
    let ghost cs = crossings.deep_view();
    let mut out = String::new();
    let mut i: usize = 0;
    while i < crossings.len()
        invariant
            0 <= i <= crossings.len(),
            cs == crossings.deep_view(),
            cs.len() == crossings@.len(),
            crossings_sorted(cs),
            crossings_ts_in_range(cs),
            out@ =~= spec_report_prefix(cs, i as int),
        decreases crossings.len() - i,
    {
        proof {
            assert(cs[i as int] == crossings@[i as int]@);
            if i + 1 < crossings@.len() {
                assert(cs[i + 1] == crossings@[i + 1]@);
            }
        }
        let crossing = &crossings[i];
        let next: Option<&BorderCrossing> = if i + 1 < crossings.len() {
            Some(&crossings[i + 1])
        } else {
            None
        };
        let block = border_crossing_to_string(crossing, &next);
        out.append(block.as_str());
        proof {
            assert(out@ =~= spec_report_prefix(cs, i + 1));
        }
        i += 1;
    }
    out
}

/// Whether every sample's timestamp lies in the formatter's range with room
/// for one more day.
pub open spec fn records_ts_in_range(s: Seq<RecordV>) -> bool {
    forall|k: int|
        0 <= k < s.len() ==> TS_FORMAT_MIN <= (#[trigger] s[k]).timestamp <= TS_FORMAT_MAX
            - MILLIS_PER_DAY
}

/// The crossing sequence that the whole pipeline retains: source exclusion,
/// stable sort, detection, the optional suppression stages in their fixed
/// order, and the final duplicate collapse.
pub open spec fn spec_pipeline_crossings(
    records: Seq<RecordV>,
    excluded: Seq<Source>,
    ignore_subregions: bool,
    ignore_missing_data: bool,
) -> Seq<CrossingV> {
    let kept = spec_exclude_sources(records, excluded);
    let sorted = spec_sort_by_timestamp(kept);
    let detected = spec_detect(sorted);
    let after_missing = if ignore_missing_data {
        spec_suppress_missing(detected)
    } else {
        detected
    };
    let after_subregions = if ignore_subregions {
        spec_suppress_subregions(after_missing)
    } else {
        after_missing
    };
    spec_collapse_duplicates(after_subregions)
}

/// The report text that the whole pipeline produces.
pub open spec fn spec_border_crossings_report(
    records: Seq<RecordV>,
    excluded: Seq<Source>,
    ignore_subregions: bool,
    ignore_missing_data: bool,
) -> Seq<char> {
    spec_report(spec_pipeline_crossings(records, excluded, ignore_subregions, ignore_missing_data))
}

/// Timestamp bounds carry from a crossing sequence to any selection from it.
proof fn lemma_range_from_members(a: Seq<CrossingV>, b: Seq<CrossingV>)
    requires
        crossings_ts_in_range(b),
        forall|x: CrossingV| a.contains(x) ==> b.contains(x),
    ensures
        crossings_ts_in_range(a),
{
    assert forall|k: int|
        0 <= k < a.len() implies TS_FORMAT_MIN <= (#[trigger] a[k]).timestamp
        <= TS_FORMAT_MAX by {
        assert(a.contains(a[k]));
        assert(b.contains(a[k]));
        let m = choose|m: int| 0 <= m < b.len() && b[m] == a[k];
        assert(b[m] == a[k]);
    }
}

/// Runs the whole engine on a sequence of samples and renders the report.
/// Timestamps must lie in the formatter's range with room for one more day,
/// since a data gap yields a crossing dated one day after the sample before
/// the gap.
pub fn border_crossings_report(
    records: Vec<Record>,
    exclude_source: &Vec<Source>,
    ignore_subregions: bool,
    ignore_missing_data: bool,
) -> (report: String)
    requires
        records_ts_in_range(records.deep_view()),
    ensures
        report@ == spec_border_crossings_report(
            records.deep_view(),
            exclude_source@,
            ignore_subregions,
            ignore_missing_data,
        ),
{
    let ghost rv = records.deep_view();

    let filtered = exclude_sources(&records, exclude_source);
    proof {
        lemma_exclude_sources_members(rv, exclude_source@);
        assert forall|k: int|
            0 <= k < filtered.deep_view().len() implies TS_FORMAT_MIN <= (
        #[trigger] filtered.deep_view()[k]).timestamp <= TS_FORMAT_MAX - MILLIS_PER_DAY by {
            let fv = filtered.deep_view();
            assert(fv.contains(fv[k]));
            assert(rv.contains(fv[k]));
            let m = choose|m: int| 0 <= m < rv.len() && rv[m] == fv[k];
            assert(rv[m] == fv[k]);
        }
    }

    let ghost fv = filtered.deep_view();
    let sorted = sort_records_by_timestamp(filtered);
    let ghost sv = sorted.deep_view();
    proof {
        assert(fv == spec_exclude_sources(rv, exclude_source@));
        assert(sv == spec_sort_by_timestamp(fv));
        lemma_sort_by_timestamp(fv);
        assert(records_sorted(sv));
        assert forall|k: int|
            0 <= k < sv.len() implies TS_FORMAT_MIN <= (#[trigger] sv[k]).timestamp
            <= TS_FORMAT_MAX - MILLIS_PER_DAY by {
            assert(sv.contains(sv[k]));
            assert(fv.contains(sv[k]));
            let m = choose|m: int| 0 <= m < fv.len() && fv[m] == sv[k];
            assert(fv[m] == sv[k]);
        }
        assert forall|k: int|
            0 <= k < sorted@.len() implies (#[trigger] sorted@[k]).timestamp + MILLIS_PER_DAY
            <= i64::MAX by {
            assert(sorted@[k]@ == sv[k]);
        }
    }

    let detected = records_to_border_crossings(&sorted);
    let ghost dv = detected.deep_view();
    proof {
        lemma_detector_output_sorted(sv);
        assert(crossings_sorted(dv));
        assert forall|k: int|
            0 <= k < dv.len() implies TS_FORMAT_MIN <= (#[trigger] dv[k]).timestamp
            <= TS_FORMAT_MAX by {
            assert(sv[0].timestamp <= dv[k].timestamp <= sv[sv.len() - 1].timestamp);
        }
    }

    let after_missing = if ignore_missing_data {
        suppress_missing_data(&detected)
    } else {
        detected
    };
    let ghost mv = after_missing.deep_view();
    proof {
        if ignore_missing_data {
            lemma_suppress_missing_properties(dv);
            lemma_range_from_members(mv, dv);
        }
        assert(crossings_sorted(mv));
        assert(crossings_ts_in_range(mv));
    }

    let after_subregions = if ignore_subregions {
        suppress_subregion_crossings(&after_missing)
    } else {
        after_missing
    };
    let ghost bv = after_subregions.deep_view();
    proof {
        if ignore_subregions {
            let q = |a: CrossingV, b: CrossingV| crate::filter::spec_subregion_keep(a, b);
            lemma_suppress_subregions_is_pairwise(mv, q);
            lemma_pairwise_keeps_sorted_crossings(mv, q);
            lemma_pairwise_keeps_members(mv, q);
            lemma_range_from_members(bv, mv);
        }
        assert(crossings_sorted(bv));
        assert(crossings_ts_in_range(bv));
    }

    let collapsed = collapse_consecutive_duplicates(&after_subregions);
    let ghost cv = collapsed.deep_view();
    proof {
        let q = |a: CrossingV, b: CrossingV| crate::filter::spec_dedup_keep(a, b);
        lemma_collapse_is_pairwise(bv, q);
        lemma_pairwise_keeps_sorted_crossings(bv, q);
        lemma_pairwise_keeps_members(bv, q);
        lemma_range_from_members(cv, bv);
        assert(crossings_sorted(cv));
        assert(crossings_ts_in_range(cv));
    }

    display_border_crossings(&collapsed)
}

} // verus!
