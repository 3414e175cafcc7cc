//! The crossing filter pipeline: source exclusion before detection, and the
//! optional missing-data and subregion suppression stages plus the final
//! consecutive-duplicate collapse after detection.
//!
//! The two pairwise stages share one abstraction: walk the sequence left to
//! right, always keep the first element, and keep each later element exactly
//! when a predicate accepts it against the nearest element kept so far.

use vstd::prelude::*;

use crate::data::{
    contains_region, region_set_is_subset, region_set_subset, BorderCrossing, CrossingV, Record,
    RecordV, Region, RegionV, Source,
};
use crate::detect::crossings_sorted;

verus! {

/// The elements retained by the pairwise walk: the first element is always
/// kept, and each later element is kept exactly when `p` accepts it against
/// the last element kept before it.
pub open spec fn pairwise_keeps<T>(s: Seq<T>, p: spec_fn(T, T) -> bool) -> Seq<T>
    decreases s.len(),
{
    if s.len() == 0 {
        Seq::empty()
    } else {
        let prefix = pairwise_keeps(s.drop_last(), p);
        if prefix.len() == 0 {
            seq![s.last()]
        } else if p(s.last(), prefix.last()) {
            prefix.push(s.last())
        } else {
            prefix
        }
    }
}

/// Whether the spec predicate `p` describes every possible outcome of the
/// executable predicate: whenever the executable predicate can return `ret`
/// for a pair, `ret` is what `p` says of that pair.
pub open spec fn models<T, F: Fn(&T, &T) -> bool>(predicate: F, p: spec_fn(T, T) -> bool) -> bool {
    forall|a: &T, b: &T, ret: bool| call_ensures(predicate, (a, b), ret) ==> ret == p(*a, *b)
}

/// Walks `v` left to right and keeps an element when the predicate, given the
/// element and the element most recently kept, returns true. The first
/// element is always kept, having no predecessor to compare against.
pub fn compare_and_retain<T: Clone, F: Fn(&T, &T) -> bool>(v: &Vec<T>, predicate: F) -> (kept: Vec<T>)
    requires
        forall|a: &T, b: &T| #[trigger] call_requires(predicate, (a, b)),
    ensures
        kept@.len() <= v@.len(),
        v@.len() == 0 ==> kept@.len() == 0,
        v@.len() > 0 ==> kept@.len() > 0 && cloned(v@[0], kept@[0]),
        forall|p: spec_fn(T, T) -> bool|
            #[trigger] models(predicate, p) ==> {
                let k = pairwise_keeps(v@, p);
                kept@.len() == k.len() && (forall|j: int|
                    0 <= j < k.len() ==> cloned(#[trigger] k[j], kept@[j]))
            },
{
    let mut kept: Vec<T> = Vec::new();
    let mut last_kept: usize = 0;
    let mut i: usize = 0;
    while i < v.len()
        invariant
            0 <= i <= v.len(),
            kept@.len() <= i,
            kept@.len() > 0 <==> i > 0,
            i > 0 ==> cloned(v@[0], kept@[0]),
            i > 0 ==> last_kept < i,
            forall|a: &T, b: &T| #[trigger] call_requires(predicate, (a, b)),
            forall|p: spec_fn(T, T) -> bool|
                #[trigger] models(predicate, p) ==> {
                    let k = pairwise_keeps(v@.take(i as int), p);
                    kept@.len() == k.len() && (forall|j: int|
                        0 <= j < k.len() ==> cloned(#[trigger] k[j], kept@[j])) && (i > 0
                        ==> k.last() == v@[last_kept as int])
                },
        decreases v.len() - i,
    {
        proof {
            assert(v@.take(i + 1).drop_last() =~= v@.take(i as int));
            assert(v@.take(i + 1).last() == v@[i as int]);
        }
        if i == 0 {
            kept.push(v[i].clone());
            last_kept = i;
            assert forall|p: spec_fn(T, T) -> bool| #[trigger] models(predicate, p) implies {
                let k = pairwise_keeps(v@.take(i + 1), p);
                kept@.len() == k.len() && (forall|j: int|
                    0 <= j < k.len() ==> cloned(#[trigger] k[j], kept@[j])) && k.last() == v@[i as int]
            } by {
                let k = pairwise_keeps(v@.take(i + 1), p);
                assert(k =~= seq![v@[i as int]]);
            }
        } else {
            let keep = predicate(&v[i], &v[last_kept]);
            let ghost old_kept = kept@;
            let ghost old_last = last_kept as int;
            if keep {
                kept.push(v[i].clone());
                last_kept = i;
            }
            assert forall|p: spec_fn(T, T) -> bool| #[trigger] models(predicate, p) implies {
                let k = pairwise_keeps(v@.take(i + 1), p);
                kept@.len() == k.len() && (forall|j: int|
                    0 <= j < k.len() ==> cloned(#[trigger] k[j], kept@[j])) && k.last() == v@[
                    last_kept as int]
            } by {
                let prefix = pairwise_keeps(v@.take(i as int), p);
                let k = pairwise_keeps(v@.take(i + 1), p);
                assert(old_kept.len() == prefix.len() && prefix.last() == v@[old_last]);
                assert(keep == p(v@[i as int], v@[old_last]));
                if keep {
                    assert(k =~= prefix.push(v@[i as int]));
                } else {
                    assert(k =~= prefix);
                }
            }
        }
        i += 1;
    }
    proof {
        assert(v@.take(v@.len() as int) =~= v@);
    }
    kept
}

/// The first element always survives the pairwise walk, whatever the
/// predicate, and the walk never adds elements.
pub proof fn lemma_first_always_kept<T>(s: Seq<T>, p: spec_fn(T, T) -> bool)
    requires
        s.len() > 0,
    ensures
        pairwise_keeps(s, p).len() > 0,
        pairwise_keeps(s, p)[0] == s[0],
        pairwise_keeps(s, p).len() <= s.len(),
    decreases s.len(),
{
    if s.len() == 1 {
        assert(pairwise_keeps(s.drop_last(), p) =~= Seq::<T>::empty());
        assert(pairwise_keeps(s, p) =~= seq![s[0]]);
    } else {
        lemma_first_always_kept(s.drop_last(), p);
        let prefix = pairwise_keeps(s.drop_last(), p);
        assert(s.drop_last()[0] == s[0]);
        if p(s.last(), prefix.last()) {
            assert(pairwise_keeps(s, p) == prefix.push(s.last()));
            assert(prefix.push(s.last())[0] == prefix[0]);
        }
    }
}

/// Every element the pairwise walk keeps comes from the input.
pub proof fn lemma_pairwise_keeps_members<T>(s: Seq<T>, p: spec_fn(T, T) -> bool)
    ensures
        forall|x: T| pairwise_keeps(s, p).contains(x) ==> s.contains(x),
    decreases s.len(),
{
    if s.len() == 0 {
    } else {
        lemma_pairwise_keeps_members(s.drop_last(), p);
        assert forall|x: T| pairwise_keeps(s, p).contains(x) implies s.contains(x) by {
            let k = pairwise_keeps(s, p);
            let j = choose|j: int| 0 <= j < k.len() && k[j] == x;
            let prefix = pairwise_keeps(s.drop_last(), p);
            if j < prefix.len() {
                assert(prefix.contains(x));
                assert(s.drop_last().contains(x));
                let m = choose|m: int| 0 <= m < s.drop_last().len() && s.drop_last()[m] == x;
                assert(s[m] == x);
            } else {
                assert(x == s.last());
            }
        }
    }
}

/// In the walk's output, every element beyond the first satisfies the
/// predicate against its immediate predecessor.
pub open spec fn pairwise_wellformed<T>(s: Seq<T>, p: spec_fn(T, T) -> bool) -> bool {
    forall|i: int| 1 <= i < s.len() ==> p(#[trigger] s[i], s[i - 1])
}

/// The pairwise walk's output is wellformed: consecutive survivors satisfy
/// the predicate.
pub proof fn lemma_pairwise_keeps_wellformed<T>(s: Seq<T>, p: spec_fn(T, T) -> bool)
    ensures
        pairwise_wellformed(pairwise_keeps(s, p), p),
    decreases s.len(),
{
    if s.len() == 0 {
    } else {
        lemma_pairwise_keeps_wellformed(s.drop_last(), p);
    }
}

/// On a wellformed sequence the pairwise walk keeps everything.
pub proof fn lemma_pairwise_keeps_of_wellformed<T>(s: Seq<T>, p: spec_fn(T, T) -> bool)
    requires
        pairwise_wellformed(s, p),
    ensures
        pairwise_keeps(s, p) == s,
    decreases s.len(),
{
    if s.len() == 0 {
        assert(pairwise_keeps(s, p) =~= s);
    } else {
        assert(pairwise_wellformed(s.drop_last(), p));
        lemma_pairwise_keeps_of_wellformed(s.drop_last(), p);
        if s.len() == 1 {
            assert(pairwise_keeps(s, p) =~= s);
        } else {
            assert(s.drop_last().last() == s[s.len() - 2]);
            assert(p(s.last(), s[s.len() - 2]));
            assert(pairwise_keeps(s, p) =~= s.drop_last().push(s.last()));
            assert(s.drop_last().push(s.last()) =~= s);
        }
    }
}

/// Running the pairwise walk twice yields what running it once does, whatever
/// the predicate.
pub proof fn lemma_pairwise_keeps_idempotent<T>(s: Seq<T>, p: spec_fn(T, T) -> bool)
    ensures
        pairwise_keeps(pairwise_keeps(s, p), p) == pairwise_keeps(s, p),
{
    lemma_pairwise_keeps_wellformed(s, p);
    lemma_pairwise_keeps_of_wellformed(pairwise_keeps(s, p), p);
}

/// The views of a sequence of crossings.
pub open spec fn crossing_views(s: Seq<BorderCrossing>) -> Seq<CrossingV> {
    Seq::new(s.len(), |i: int| s[i]@)
}

/// The pairwise walk commutes with taking views, when the value-level
/// predicate `p` decides exactly as the view-level predicate `q` does.
pub proof fn lemma_pairwise_keeps_views(
    s: Seq<BorderCrossing>,
    p: spec_fn(BorderCrossing, BorderCrossing) -> bool,
    q: spec_fn(CrossingV, CrossingV) -> bool,
)
    requires
        forall|a: BorderCrossing, b: BorderCrossing| #[trigger] p(a, b) == q(a@, b@),
    ensures
        crossing_views(pairwise_keeps(s, p)) =~= pairwise_keeps(crossing_views(s), q),
    decreases s.len(),
{
    if s.len() == 0 {
        assert(crossing_views(s) =~= Seq::<CrossingV>::empty());
    } else {
        lemma_pairwise_keeps_views(s.drop_last(), p, q);
        assert(crossing_views(s).drop_last() =~= crossing_views(s.drop_last()));
        let prefix = pairwise_keeps(s.drop_last(), p);
        let vprefix = pairwise_keeps(crossing_views(s.drop_last()), q);
        assert(crossing_views(prefix) =~= vprefix);
        assert(crossing_views(s).last() == s.last()@);
        if prefix.len() == 0 {
            assert(crossing_views(seq![s.last()]) =~= seq![s.last()@]);
        } else {
            assert(vprefix.last() == crossing_views(prefix).last());
            assert(crossing_views(prefix).last() == prefix.last()@);
            if p(s.last(), prefix.last()) {
                assert(crossing_views(prefix.push(s.last())) =~= vprefix.push(s.last()@));
            }
        }
    }
}

/// The keep-predicate of the duplicate collapse: the crossing names at least
/// one region that the nearest kept predecessor's set lacks.
pub open spec fn spec_dedup_keep(current: CrossingV, previous: CrossingV) -> bool {
    !region_set_subset(current.new_regions, previous.new_regions)
}

/// Decides the duplicate-collapse predicate: whether `current` adds a region
/// relative to `previous`.
pub fn crossing_differs(current: &BorderCrossing, previous: &BorderCrossing) -> (r: bool)
    ensures
        r == spec_dedup_keep(current@, previous@),
{
    !region_set_is_subset(&current.new_regions, &previous.new_regions)
}

/// The consecutive-duplicate collapse: the pairwise walk under
/// [`spec_dedup_keep`].
pub open spec fn spec_collapse_duplicates(s: Seq<CrossingV>) -> Seq<CrossingV>
    decreases s.len(),
{
    if s.len() == 0 {
        Seq::empty()
    } else {
        let prefix = spec_collapse_duplicates(s.drop_last());
        if prefix.len() == 0 {
            seq![s.last()]
        } else if spec_dedup_keep(s.last(), prefix.last()) {
            prefix.push(s.last())
        } else {
            prefix
        }
    }
}

/// [`spec_collapse_duplicates`] is the pairwise walk under any predicate that
/// decides as [`spec_dedup_keep`] does.
pub proof fn lemma_collapse_is_pairwise(s: Seq<CrossingV>, q: spec_fn(CrossingV, CrossingV) -> bool)
    requires
        forall|a: CrossingV, b: CrossingV| #[trigger] q(a, b) == spec_dedup_keep(a, b),
    ensures
        spec_collapse_duplicates(s) == pairwise_keeps(s, q),
    decreases s.len(),
{
    if s.len() == 0 {
    } else {
        lemma_collapse_is_pairwise(s.drop_last(), q);
    }
}

/// Collapsing the duplicate collapse a second time changes nothing.
pub proof fn lemma_collapse_idempotent(s: Seq<CrossingV>)
    ensures
        spec_collapse_duplicates(spec_collapse_duplicates(s)) == spec_collapse_duplicates(s),
{
    let q = |a: CrossingV, b: CrossingV| spec_dedup_keep(a, b);
    lemma_collapse_is_pairwise(s, q);
    lemma_collapse_is_pairwise(spec_collapse_duplicates(s), q);
    lemma_pairwise_keeps_idempotent(s, q);
}

/// Drops every crossing that adds no region relative to the nearest retained
/// predecessor; the first crossing is always retained.
pub fn collapse_consecutive_duplicates(crossings: &Vec<BorderCrossing>) -> (kept: Vec<
    BorderCrossing,
>)
    ensures
        kept.deep_view() == spec_collapse_duplicates(crossings.deep_view()),
{
    let kept = compare_and_retain(crossings, crossing_differs);
    proof {
        let p = |a: BorderCrossing, b: BorderCrossing| spec_dedup_keep(a@, b@);
        let q = |a: CrossingV, b: CrossingV| spec_dedup_keep(a, b);
        assert(models(crossing_differs, p));
        let k = pairwise_keeps(crossings@, p);
        assert(kept@.len() == k.len() && (forall|j: int|
            0 <= j < k.len() ==> cloned(#[trigger] k[j], kept@[j])));
        assert forall|j: int| 0 <= j < k.len() implies kept@[j]@ == k[j]@ by {
            assert(cloned(k[j], kept@[j]));
        }
        lemma_pairwise_keeps_views(crossings@, p, q);
        assert(crossing_views(kept@) =~= crossing_views(k));
        lemma_collapse_is_pairwise(crossings.deep_view(), q);
        assert(crossing_views(crossings@) =~= crossings.deep_view());
        assert(kept.deep_view() =~= crossing_views(kept@));
        assert(kept.deep_view() =~= spec_collapse_duplicates(crossings.deep_view()));
    }
    kept
}

/// The keep-predicate of subregion suppression: some region that the crossing
/// adds relative to the nearest kept predecessor is not of subdivision
/// granularity, so the crossing is more than a move between subdivisions.
pub open spec fn spec_subregion_keep(current: CrossingV, previous: CrossingV) -> bool {
    exists|r: RegionV|
        current.new_regions.contains(r) && !previous.new_regions.contains(r) && !(r is Subdivision)
}

/// Decides the subregion-suppression predicate: whether some region `current`
/// adds relative to `previous` is not a subdivision.
pub fn crossing_adds_nonsubregion(current: &BorderCrossing, previous: &BorderCrossing) -> (r: bool)
    ensures
        r == spec_subregion_keep(current@, previous@),
{
    let mut i: usize = 0;
    while i < current.new_regions.len()
        invariant
            0 <= i <= current.new_regions.len(),
            forall|j: int|
                0 <= j < i ==> {
                    let r = #[trigger] current.new_regions.deep_view()[j];
                    previous.new_regions.deep_view().contains(r) || r is Subdivision
                },
        decreases current.new_regions.len() - i,
    {
        let region = &current.new_regions[i];
        if !contains_region(&previous.new_regions, region) && !region.is_subregion() {
            proof {
                let d = current.new_regions.deep_view();
                assert(region@ == d[i as int]);
                assert(d.contains(d[i as int]));
                assert(current@.new_regions.contains(d[i as int]));
                assert(!previous@.new_regions.contains(d[i as int]));
                assert(!(d[i as int] is Subdivision));
            }
            return true;
        }
        i += 1;
    }
    assert forall|r: RegionV|
        current@.new_regions.contains(r) && !previous@.new_regions.contains(r) implies (
    r is Subdivision) by {
        let d = current.new_regions.deep_view();
        let j = choose|j: int| 0 <= j < d.len() && d[j] == r;
        assert(d[j] == r);
    }
    false
}

/// Subregion suppression: the pairwise walk under [`spec_subregion_keep`].
pub open spec fn spec_suppress_subregions(s: Seq<CrossingV>) -> Seq<CrossingV>
    decreases s.len(),
{
    if s.len() == 0 {
        Seq::empty()
    } else {
        let prefix = spec_suppress_subregions(s.drop_last());
        if prefix.len() == 0 {
            seq![s.last()]
        } else if spec_subregion_keep(s.last(), prefix.last()) {
            prefix.push(s.last())
        } else {
            prefix
        }
    }
}

/// [`spec_suppress_subregions`] is the pairwise walk under any predicate that
/// decides as [`spec_subregion_keep`] does.
pub proof fn lemma_suppress_subregions_is_pairwise(
    s: Seq<CrossingV>,
    q: spec_fn(CrossingV, CrossingV) -> bool,
)
    requires
        forall|a: CrossingV, b: CrossingV| #[trigger] q(a, b) == spec_subregion_keep(a, b),
    ensures
        spec_suppress_subregions(s) == pairwise_keeps(s, q),
    decreases s.len(),
{
    if s.len() == 0 {
    } else {
        lemma_suppress_subregions_is_pairwise(s.drop_last(), q);
    }
}

/// Drops every crossing whose whole difference against the nearest retained
/// predecessor consists of subdivisions; the first crossing is always
/// retained.
pub fn suppress_subregion_crossings(crossings: &Vec<BorderCrossing>) -> (kept: Vec<BorderCrossing>)
    ensures
        kept.deep_view() == spec_suppress_subregions(crossings.deep_view()),
{
    let kept = compare_and_retain(crossings, crossing_adds_nonsubregion);
    proof {
        let p = |a: BorderCrossing, b: BorderCrossing| spec_subregion_keep(a@, b@);
        let q = |a: CrossingV, b: CrossingV| spec_subregion_keep(a, b);
        assert(models(crossing_adds_nonsubregion, p));
        let k = pairwise_keeps(crossings@, p);
        assert(kept@.len() == k.len() && (forall|j: int|
            0 <= j < k.len() ==> cloned(#[trigger] k[j], kept@[j])));
        assert forall|j: int| 0 <= j < k.len() implies kept@[j]@ == k[j]@ by {
            assert(cloned(k[j], kept@[j]));
        }
        lemma_pairwise_keeps_views(crossings@, p, q);
        assert(crossing_views(kept@) =~= crossing_views(k));
        lemma_suppress_subregions_is_pairwise(crossings.deep_view(), q);
        assert(crossing_views(crossings@) =~= crossings.deep_view());
        assert(kept.deep_view() =~= crossing_views(kept@));
        assert(kept.deep_view() =~= spec_suppress_subregions(crossings.deep_view()));
    }
    kept
}

/// Whether a crossing's region set is exactly the missing-data marker: not
/// empty, and holding nothing else.
pub open spec fn is_missing_only(c: CrossingV) -> bool {
    c.new_regions.len() > 0 && (forall|r: RegionV|
        c.new_regions.contains(r) ==> r is MissingData)
}

/// Decides whether a crossing's region set is exactly the missing-data
/// marker.
pub fn crossing_is_missing_only(c: &BorderCrossing) -> (r: bool)
    ensures
        r == is_missing_only(c@),
{
    if c.new_regions.len() == 0 {
        return false;
    }
    let mut marker: Vec<Region> = Vec::new();
    marker.push(Region::MissingData);
    proof {
        assert(marker.deep_view() =~= seq![RegionV::MissingData]);
    }
    let subset = region_set_is_subset(&c.new_regions, &marker);
    proof {
        if subset {
            assert forall|r: RegionV| c@.new_regions.contains(r) implies r is MissingData by {
                assert(marker.deep_view().contains(r));
                assert(marker.deep_view()[0] == RegionV::MissingData);
            }
        } else {
            let r = choose|r: RegionV|
                c.new_regions.deep_view().contains(r) && !marker.deep_view().contains(r);
            assert(marker.deep_view().contains(RegionV::MissingData));
        }
    }
    subset
}

/// Missing-data suppression: drops every crossing whose region set is exactly
/// the missing-data marker.
pub open spec fn spec_suppress_missing(s: Seq<CrossingV>) -> Seq<CrossingV>
    decreases s.len(),
{
    if s.len() == 0 {
        Seq::empty()
    } else {
        let prefix = spec_suppress_missing(s.drop_last());
        if is_missing_only(s.last()) {
            prefix
        } else {
            prefix.push(s.last())
        }
    }
}

/// Drops every crossing that reports only missing data.
pub fn suppress_missing_data(crossings: &Vec<BorderCrossing>) -> (kept: Vec<BorderCrossing>)
    ensures
        kept.deep_view() == spec_suppress_missing(crossings.deep_view()),
{
    let ghost cs = crossings.deep_view();
    let mut kept: Vec<BorderCrossing> = Vec::new();
    let mut i: usize = 0;
    while i < crossings.len()
        invariant
            0 <= i <= crossings.len(),
            cs == crossings.deep_view(),
            cs.len() == crossings@.len(),
            kept.deep_view() =~= spec_suppress_missing(cs.take(i as int)),
        decreases crossings.len() - i,
    {
        proof {
            assert(cs.take(i + 1).drop_last() =~= cs.take(i as int));
            assert(cs.take(i + 1).last() == cs[i as int]);
            assert(cs[i as int] == crossings@[i as int]@);
        }
        let crossing = &crossings[i];
        if !crossing_is_missing_only(crossing) {
            kept.push(crossing.clone());
        }
        proof {
            assert(kept.deep_view() =~= spec_suppress_missing(cs.take(i + 1)));
        }
        i += 1;
    }
    proof {
        assert(cs.take(crossings@.len() as int) =~= cs);
    }
    kept
}

/// The pairwise walk keeps crossings in timestamp order.
pub proof fn lemma_pairwise_keeps_sorted_crossings(
    s: Seq<CrossingV>,
    q: spec_fn(CrossingV, CrossingV) -> bool,
)
    requires
        crossings_sorted(s),
    ensures
        crossings_sorted(pairwise_keeps(s, q)),
    decreases s.len(),
{
    if s.len() == 0 {
    } else {
        assert(crossings_sorted(s.drop_last()));
        lemma_pairwise_keeps_sorted_crossings(s.drop_last(), q);
        lemma_pairwise_keeps_members(s.drop_last(), q);
        let prefix = pairwise_keeps(s.drop_last(), q);
        assert forall|k: int| 0 <= k < prefix.len() implies (#[trigger] prefix[k]).timestamp
            <= s.last().timestamp by {
            assert(prefix.contains(prefix[k]));
            assert(s.drop_last().contains(prefix[k]));
            let m = choose|m: int| 0 <= m < s.drop_last().len() && s.drop_last()[m] == prefix[k];
            assert(s[m] == prefix[k]);
        }
    }
}

/// Missing-data suppression keeps crossings in timestamp order and invents
/// none.
pub proof fn lemma_suppress_missing_properties(s: Seq<CrossingV>)
    ensures
        forall|x: CrossingV| spec_suppress_missing(s).contains(x) ==> s.contains(x),
        crossings_sorted(s) ==> crossings_sorted(spec_suppress_missing(s)),
    decreases s.len(),
{
    if s.len() == 0 {
    } else {
        lemma_suppress_missing_properties(s.drop_last());
        let prefix = spec_suppress_missing(s.drop_last());
        assert forall|x: CrossingV| spec_suppress_missing(s).contains(x) implies s.contains(x) by {
            let k = spec_suppress_missing(s);
            let j = choose|j: int| 0 <= j < k.len() && k[j] == x;
            if j < prefix.len() {
                assert(prefix.contains(x));
                assert(s.drop_last().contains(x));
                let m = choose|m: int| 0 <= m < s.drop_last().len() && s.drop_last()[m] == x;
                assert(s[m] == x);
            } else {
                assert(x == s.last());
                assert(s[s.len() - 1] == x);
            }
        }
        if crossings_sorted(s) {
            assert(crossings_sorted(s.drop_last()));
            assert forall|k: int| 0 <= k < prefix.len() implies (#[trigger] prefix[k]).timestamp
                <= s.last().timestamp by {
                assert(prefix.contains(prefix[k]));
                assert(s.drop_last().contains(prefix[k]));
                let m = choose|m: int|
                    0 <= m < s.drop_last().len() && s.drop_last()[m] == prefix[k];
                assert(s[m] == prefix[k]);
            }
        }
    }
}

/// Source exclusion: drops every sample whose source is in the exclusion set.
pub open spec fn spec_exclude_sources(rs: Seq<RecordV>, excluded: Seq<Source>) -> Seq<RecordV>
    decreases rs.len(),
{
    if rs.len() == 0 {
        Seq::empty()
    } else {
        let prefix = spec_exclude_sources(rs.drop_last(), excluded);
        if excluded.contains(rs.last().source) {
            prefix
        } else {
            prefix.push(rs.last())
        }
    }
}

/// Source exclusion invents no sample.
pub proof fn lemma_exclude_sources_members(rs: Seq<RecordV>, excluded: Seq<Source>)
    ensures
        forall|x: RecordV| spec_exclude_sources(rs, excluded).contains(x) ==> rs.contains(x),
    decreases rs.len(),
{
    if rs.len() == 0 {
    } else {
        lemma_exclude_sources_members(rs.drop_last(), excluded);
        let prefix = spec_exclude_sources(rs.drop_last(), excluded);
        assert forall|x: RecordV| spec_exclude_sources(rs, excluded).contains(x) implies rs
            .contains(x) by {
            let k = spec_exclude_sources(rs, excluded);
            let j = choose|j: int| 0 <= j < k.len() && k[j] == x;
            if j < prefix.len() {
                assert(prefix.contains(x));
                assert(rs.drop_last().contains(x));
                let m = choose|m: int| 0 <= m < rs.drop_last().len() && rs.drop_last()[m] == x;
                assert(rs[m] == x);
            } else {
                assert(x == rs.last());
                assert(rs[rs.len() - 1] == x);
            }
        }
    }
}

/// Decides whether a source is in the exclusion set.
pub fn source_is_excluded(source: Source, excluded: &Vec<Source>) -> (b: bool)
    ensures
        b == excluded@.contains(source),
{
    let mut i: usize = 0;
    while i < excluded.len()
        invariant
            0 <= i <= excluded.len(),
            forall|j: int| 0 <= j < i ==> excluded@[j] != source,
        decreases excluded.len() - i,
    {
        if excluded[i] == source {
            return true;
        }
        i += 1;
    }
    false
}

/// Drops every sample whose source is in the exclusion set. Applied before
/// detection, so gaps and differences are computed on the reduced sequence.
pub fn exclude_sources(records: &Vec<Record>, exclude_source: &Vec<Source>) -> (kept: Vec<Record>)
    ensures
        kept.deep_view() == spec_exclude_sources(records.deep_view(), exclude_source@),
{
    let ghost rs = records.deep_view();
    let mut kept: Vec<Record> = Vec::new();
    let mut i: usize = 0;
    while i < records.len()
        invariant
            0 <= i <= records.len(),
            rs == records.deep_view(),
            rs.len() == records@.len(),
            kept.deep_view() =~= spec_exclude_sources(rs.take(i as int), exclude_source@),
        decreases records.len() - i,
    {
        proof {
            assert(rs.take(i + 1).drop_last() =~= rs.take(i as int));
            assert(rs.take(i + 1).last() == rs[i as int]);
            assert(rs[i as int] == records@[i as int]@);
        }
        let record = &records[i];
        if !source_is_excluded(record.source, exclude_source) {
            kept.push(record.clone());
        }
        proof {
            assert(kept.deep_view() =~= spec_exclude_sources(rs.take(i + 1), exclude_source@));
        }
        i += 1;
    }
    proof {
        assert(rs.take(records@.len() as int) =~= rs);
    }
    kept
}

} // verus!
