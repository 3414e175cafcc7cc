//! The crossing detector: a single forward pass over a sorted sequence of
//! samples that emits a crossing whenever the location enters a new region
//! context, and a synthetic "missing data" crossing whenever a day or more
//! passes between consecutive samples.

use vstd::prelude::*;

use crate::data::{
    contains_region, region_set_is_subset, region_set_subset, BorderCrossing, CrossingV, Record,
    RecordV, Region, RegionV,
};
use crate::data::spec_crossing_of;
use crate::time::MILLIS_PER_DAY;

verus! {

/// The synthetic crossing that stands for a data gap: it carries exactly the
/// missing-data marker.
pub open spec fn spec_missing_crossing(ts: int) -> CrossingV {
    CrossingV { timestamp: ts, new_regions: seq![RegionV::MissingData] }
}

/// Whether a crossing carries the missing-data marker.
pub open spec fn carries_missing_data(c: CrossingV) -> bool {
    c.new_regions.contains(RegionV::MissingData)
}

/// Whether the samples are in non-decreasing timestamp order.
pub open spec fn records_sorted(rs: Seq<RecordV>) -> bool {
    forall|i: int, j: int| 0 <= i < j < rs.len() ==> rs[i].timestamp <= rs[j].timestamp
}

/// Whether the crossings are in non-decreasing timestamp order.
pub open spec fn crossings_sorted(s: Seq<CrossingV>) -> bool {
    forall|i: int, j: int| 0 <= i < j < s.len() ==> s[i].timestamp <= s[j].timestamp
}

/// The crossings that a sorted sequence of samples gives rise to.
///
/// The first sample always yields a crossing. Each later sample, compared to
/// its predecessor, first yields a synthetic missing-data crossing one day
/// after the predecessor if the gap between the two is a day or more, and
/// then yields a crossing with its full region set if that set contains a
/// region the predecessor's did not, or if the most recently emitted crossing
/// carries the missing-data marker.
pub open spec fn spec_detect(rs: Seq<RecordV>) -> Seq<CrossingV>
    decreases rs.len(),
{
    if rs.len() == 0 {
        Seq::empty()
    } else if rs.len() == 1 {
        seq![spec_crossing_of(rs[0])]
    } else {
        let prefix = spec_detect(rs.drop_last());
        let prev = rs[rs.len() - 2];
        let cur = rs.last();
        let with_gap = if cur.timestamp - prev.timestamp >= MILLIS_PER_DAY {
            prefix.push(spec_missing_crossing(prev.timestamp + MILLIS_PER_DAY))
        } else {
            prefix
        };
        if !region_set_subset(cur.regions, prev.regions) || (with_gap.len() > 0
            && carries_missing_data(with_gap.last())) {
            with_gap.push(spec_crossing_of(cur))
        } else {
            with_gap
        }
    }
}

/// Where a sample lands when inserted into an already sorted sequence: after
/// every element with an equal or earlier timestamp, before every element
/// with a strictly later one.
pub open spec fn spec_insert_sorted(s: Seq<RecordV>, x: RecordV) -> Seq<RecordV>
    decreases s.len(),
{
    if s.len() == 0 {
        seq![x]
    } else if x.timestamp < s.last().timestamp {
        spec_insert_sorted(s.drop_last(), x).push(s.last())
    } else {
        s.push(x)
    }
}

/// The stable sort of the samples by timestamp: each sample in turn inserted
/// into the sorted sequence of those before it.
pub open spec fn spec_sort_by_timestamp(s: Seq<RecordV>) -> Seq<RecordV>
    decreases s.len(),
{
    if s.len() == 0 {
        Seq::empty()
    } else {
        spec_insert_sorted(spec_sort_by_timestamp(s.drop_last()), s.last())
    }
}

/// Inserting into a sorted sequence keeps it sorted, keeps its length plus
/// one, and adds no element but the inserted one.
pub proof fn lemma_insert_sorted(s: Seq<RecordV>, x: RecordV)
    requires
        records_sorted(s),
    ensures
        records_sorted(spec_insert_sorted(s, x)),
        spec_insert_sorted(s, x).len() == s.len() + 1,
        forall|y: RecordV|
            spec_insert_sorted(s, x).contains(y) ==> s.contains(y) || y == x,
    decreases s.len(),
{
    if s.len() == 0 {
    } else if x.timestamp < s.last().timestamp {
        assert(records_sorted(s.drop_last()));
        lemma_insert_sorted(s.drop_last(), x);
        let inner = spec_insert_sorted(s.drop_last(), x);
        assert forall|k: int| 0 <= k < inner.len() implies inner[k].timestamp
            <= s.last().timestamp by {
            assert(inner.contains(inner[k]));
            if s.drop_last().contains(inner[k]) {
                let m = choose|m: int|
                    0 <= m < s.drop_last().len() && s.drop_last()[m] == inner[k];
                assert(s[m] == inner[k]);
            }
        }
        assert forall|y: RecordV| inner.push(s.last()).contains(y) implies s.contains(y) || y
            == x by {
            let j = choose|j: int|
                0 <= j < inner.push(s.last()).len() && inner.push(s.last())[j] == y;
            if j < inner.len() {
                assert(inner.contains(y));
                if s.drop_last().contains(y) {
                    let m = choose|m: int|
                        0 <= m < s.drop_last().len() && s.drop_last()[m] == y;
                    assert(s[m] == y);
                }
            } else {
                assert(y == s.last());
            }
        }
    } else {
        assert forall|y: RecordV| s.push(x).contains(y) implies s.contains(y) || y == x by {
            let j = choose|j: int| 0 <= j < s.push(x).len() && s.push(x)[j] == y;
            if j < s.len() {
                assert(s[j] == y);
            }
        }
    }
}

/// The sort's output is sorted and is made of the input's samples.
pub proof fn lemma_sort_by_timestamp(s: Seq<RecordV>)
    ensures
        records_sorted(spec_sort_by_timestamp(s)),
        spec_sort_by_timestamp(s).len() == s.len(),
        forall|y: RecordV| spec_sort_by_timestamp(s).contains(y) ==> s.contains(y),
    decreases s.len(),
{
    if s.len() == 0 {
    } else {
        lemma_sort_by_timestamp(s.drop_last());
        lemma_insert_sorted(spec_sort_by_timestamp(s.drop_last()), s.last());
        assert forall|y: RecordV| spec_sort_by_timestamp(s).contains(y) implies s.contains(y) by {
            let sorted_prefix = spec_sort_by_timestamp(s.drop_last());
            assert(spec_insert_sorted(sorted_prefix, s.last()).contains(y));
            if sorted_prefix.contains(y) {
                assert(s.drop_last().contains(y));
                let m = choose|m: int|
                    0 <= m < s.drop_last().len() && s.drop_last()[m] == y;
                assert(s[m] == y);
            } else {
                assert(y == s.last());
                assert(s[s.len() - 1] == y);
            }
        }
    }
}

/// Sorts the samples by timestamp, stably: a sample moves left only past
/// samples with strictly later timestamps.
#[verifier::rlimit(50)]
pub fn sort_records_by_timestamp(records: Vec<Record>) -> (sorted: Vec<Record>)
    ensures
        sorted.deep_view() == spec_sort_by_timestamp(records.deep_view()),
{
    let ghost rs = records.deep_view();
    let mut sorted: Vec<Record> = Vec::new();
    let mut i: usize = 0;
    while i < records.len()
        invariant
            0 <= i <= records.len(),
            rs == records.deep_view(),
            rs.len() == records@.len(),
            sorted.deep_view() =~= spec_sort_by_timestamp(rs.take(i as int)),
            records_sorted(sorted.deep_view()),
        decreases records.len() - i,
    {
        proof {
            assert(rs.take(i + 1).drop_last() =~= rs.take(i as int));
            assert(rs.take(i + 1).last() == rs[i as int]);
            assert(rs[i as int] == records@[i as int]@);
        }
        let record = &records[i];
        let ghost before = sorted.deep_view();
        // find the insertion point: after the last element whose timestamp is
        // not later than the new sample's
        let mut j: usize = sorted.len();
        while j > 0 && sorted[j - 1].timestamp > record.timestamp
            invariant
                0 <= j <= sorted@.len(),
                sorted.deep_view() == before,
                forall|k: int|
                    j <= k < before.len() ==> record@.timestamp < (#[trigger] before[k]).timestamp,
            decreases j,
        {
            j -= 1;
        }
        let clone = record.clone();
        proof {
            assert(clone@ == rs[i as int]);
            lemma_insert_shape(before, rs[i as int], j as int);
        }
        sorted.insert(j, clone);
        proof {
            assert(sorted.deep_view() =~= before.take(j as int).push(rs[i as int]) + before.skip(
                j as int,
            ));
            assert(sorted.deep_view() =~= spec_insert_sorted(before, rs[i as int]));
            lemma_insert_sorted(before, rs[i as int]);
        }
        i += 1;
    }
    proof {
        assert(rs.take(records@.len() as int) =~= rs);
    }
    sorted
}

/// The shape of an insertion: when everything from position `j` on is
/// strictly later than `x` and everything before is not, the insertion of `x`
/// into the sorted sequence `s` is the sequence with `x` planted at `j`.
proof fn lemma_insert_shape(s: Seq<RecordV>, x: RecordV, j: int)
    requires
        records_sorted(s),
        0 <= j <= s.len(),
        forall|k: int| j <= k < s.len() ==> x.timestamp < (#[trigger] s[k]).timestamp,
        j > 0 ==> s[j - 1].timestamp <= x.timestamp,
    ensures
        spec_insert_sorted(s, x) =~= s.take(j).push(x) + s.skip(j),
    decreases s.len(),
{
    if s.len() == 0 {
        assert(spec_insert_sorted(s, x) =~= seq![x]);
    } else if x.timestamp < s.last().timestamp {
        assert(j < s.len());
        assert(records_sorted(s.drop_last()));
        lemma_insert_shape(s.drop_last(), x, j);
        assert(s.drop_last().take(j) =~= s.take(j));
        assert(spec_insert_sorted(s.drop_last(), x).push(s.last()) =~= s.take(j).push(x) + s.skip(
            j,
        ));
    } else {
        assert(j == s.len());
        assert(s.take(j) =~= s);
        assert(s.push(x) =~= s.take(j).push(x) + s.skip(j));
    }
}

/// Turns a sequence of samples, sorted by timestamp, into the sequence of
/// border crossings it describes. Timestamps must leave room for one more
/// day, since a data gap yields a crossing dated one day after the sample
/// before the gap.
pub fn records_to_border_crossings(records: &Vec<Record>) -> (crossings: Vec<BorderCrossing>)
    requires
        records_sorted(records.deep_view()),
        forall|i: int|
            0 <= i < records@.len() ==> (#[trigger] records@[i]).timestamp + MILLIS_PER_DAY
                <= i64::MAX,
    ensures
        crossings.deep_view() == spec_detect(records.deep_view()),
{
    let ghost rs = records.deep_view();
    let mut crossings: Vec<BorderCrossing> = Vec::new();
    let mut i: usize = 0;
    while i < records.len()
        invariant
            0 <= i <= records.len(),
            rs == records.deep_view(),
            rs.len() == records@.len(),
            records_sorted(rs),
            forall|k: int|
                0 <= k < records@.len() ==> (#[trigger] records@[k]).timestamp + MILLIS_PER_DAY
                    <= i64::MAX,
            crossings.deep_view() =~= spec_detect(rs.take(i as int)),
        decreases records.len() - i,
    {
        let ghost prefix_view = spec_detect(rs.take(i as int));
        proof {
            assert(rs.take(i + 1).drop_last() =~= rs.take(i as int));
            assert(rs.take(i + 1).last() == rs[i as int]);
            assert(rs[i as int] == records@[i as int].deep_view());
        }
        let record = &records[i];
        if i > 0 {
            proof {
                assert(rs.take(i + 1)[i - 1] == rs[i - 1]);
                assert(rs[i - 1] == records@[i - 1].deep_view());
            }
            let prev = &records[i - 1];
            if prev.timestamp + MILLIS_PER_DAY <= record.timestamp {
                let mut missing_regions: Vec<Region> = Vec::new();
                missing_regions.push(Region::MissingData);
                let gap_crossing = BorderCrossing {
                    timestamp: prev.timestamp + MILLIS_PER_DAY,
                    new_regions: missing_regions,
                };
                proof {
                    assert(gap_crossing@.new_regions =~= seq![RegionV::MissingData]);
                    assert(gap_crossing@ == spec_missing_crossing(
                        rs[i - 1].timestamp + MILLIS_PER_DAY,
                    ));
                }
                crossings.push(gap_crossing);
                proof {
                    assert(crossings.deep_view() =~= prefix_view.push(
                        spec_missing_crossing(rs[i - 1].timestamp + MILLIS_PER_DAY),
                    ));
                }
            }
            let diff_empty = region_set_is_subset(&record.regions, &prev.regions);
            let last_is_missing = if crossings.len() > 0 {
                let last = &crossings[crossings.len() - 1];
                contains_region(&last.new_regions, &Region::MissingData)
            } else {
                false
            };
            proof {
                if crossings.len() > 0 {
                    assert(crossings.deep_view().last() == crossings@[crossings@.len()
                        - 1].deep_view());
                }
            }
            if !diff_empty || last_is_missing {
                crossings.push(BorderCrossing::from(record));
            }
        } else {
            crossings.push(BorderCrossing::from(record));
        }
        proof {
            assert(crossings.deep_view() =~= spec_detect(rs.take(i + 1)));
        }
        i += 1;
    }
    proof {
        assert(rs.take(records@.len() as int) =~= rs);
    }
    crossings
}

/// For any non-decreasing input, the detector's output timestamps are
/// non-decreasing as well, every output timestamp lies between the first and
/// the last sample's timestamps, and a non-empty input yields at least one
/// crossing.
pub proof fn lemma_detector_output_sorted(rs: Seq<RecordV>)
    requires
        records_sorted(rs),
    ensures
        crossings_sorted(spec_detect(rs)),
        rs.len() > 0 ==> spec_detect(rs).len() > 0,
        forall|k: int|
            0 <= k < spec_detect(rs).len() ==> rs[0].timestamp <= (#[trigger] spec_detect(
                rs,
            )[k]).timestamp <= rs[rs.len() - 1].timestamp,
    decreases rs.len(),
{
    if rs.len() <= 1 {
        // nothing to relate
    } else {
        let shorter = rs.drop_last();
        assert(records_sorted(shorter));
        lemma_detector_output_sorted(shorter);
        let prefix = spec_detect(shorter);
        let prev = rs[rs.len() - 2];
        let cur = rs.last();
        assert(shorter[0] == rs[0]);
        assert(shorter[shorter.len() - 1] == prev);
        if cur.timestamp - prev.timestamp >= MILLIS_PER_DAY {
            let with_gap = prefix.push(spec_missing_crossing(prev.timestamp + MILLIS_PER_DAY));
            assert(forall|k: int|
                0 <= k < with_gap.len() ==> rs[0].timestamp <= (#[trigger] with_gap[k]).timestamp
                    <= cur.timestamp);
            assert(crossings_sorted(with_gap));
        }
    }
}

/// The gap rule: when exactly one day separates two samples with the same
/// region set, the detector emits the first sample's crossing, a missing-data
/// crossing dated one day after the first sample, and — because the crossing
/// just emitted carries the missing-data marker — a crossing back into the
/// unchanged region set at the second sample's instant.
pub proof fn lemma_gap_reentry(r1: RecordV, r2: RecordV)
    requires
        r2.timestamp - r1.timestamp == MILLIS_PER_DAY,
        region_set_subset(r2.regions, r1.regions),
        region_set_subset(r1.regions, r2.regions),
    ensures
        spec_detect(seq![r1, r2]) =~= seq![
            spec_crossing_of(r1),
            spec_missing_crossing(r1.timestamp + MILLIS_PER_DAY),
            spec_crossing_of(r2),
        ],
{
    let rs = seq![r1, r2];
    assert(rs.drop_last() =~= seq![r1]);
    assert(spec_detect(seq![r1]) =~= seq![spec_crossing_of(r1)]);
    let with_gap = seq![spec_crossing_of(r1)].push(
        spec_missing_crossing(r1.timestamp + MILLIS_PER_DAY),
    );
    assert(with_gap.last() == spec_missing_crossing(r1.timestamp + MILLIS_PER_DAY));
    assert(with_gap.last().new_regions[0] == RegionV::MissingData);
    assert(carries_missing_data(with_gap.last()));
}

/// The diff rule: when two samples less than a day apart describe the same
/// region set (and that set is a real one, free of the missing-data marker),
/// the second sample yields no crossing.
pub proof fn lemma_no_crossing_without_change(r1: RecordV, r2: RecordV)
    requires
        0 <= r2.timestamp - r1.timestamp < MILLIS_PER_DAY,
        region_set_subset(r2.regions, r1.regions),
        !r1.regions.contains(RegionV::MissingData),
    ensures
        spec_detect(seq![r1, r2]) =~= seq![spec_crossing_of(r1)],
{
    let rs = seq![r1, r2];
    assert(rs.drop_last() =~= seq![r1]);
    assert(spec_detect(seq![r1]) =~= seq![spec_crossing_of(r1)]);
    assert(!carries_missing_data(spec_crossing_of(r1)));
}

} // verus!

