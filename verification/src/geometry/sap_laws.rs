//! What holds of an axis over several calls.

use crate::geometry::aabb::lemma_intersects_symmetric;
use crate::geometry::bitset::spec_count_set;
use crate::geometry::endpoint::{spec_sort2, SAPEndpoint, SENTINEL_PROXY};
use crate::geometry::merge::{
    lemma_merge_permutes, lemma_merge_position, lemma_merge_position_increases, lemma_sort_sorts,
    spec_merge, spec_merge_position, spec_sort,
};
use crate::geometry::proxy::BroadPhaseProxy;
use crate::geometry::sap_axis::{spec_pair_intersects, spec_reports_written, SAPAxis};
use crate::geometry::sap_insert::{
    spec_candidate, spec_insertion_reports, spec_new_endpoints, spec_placed, spec_scan_reports,
};
use vstd::prelude::*;

verus! {

/// Whether the boxes of the proxies `p` and `q` are apart on some axis.
pub open spec fn spec_apart(proxies: Seq<BroadPhaseProxy>, p: int, q: int) -> bool {
    exists|dim: int|
        0 <= dim < 3 && #[trigger] proxies[p].aabb.spec_disjoint_on(&proxies[q].aabb, dim)
}

/// Whether the boxes of any two different proxies are apart on some axis.
pub open spec fn spec_pairwise_disjoint(proxies: Seq<BroadPhaseProxy>) -> bool {
    forall|p: int, q: int|
        0 <= p < proxies.len() && 0 <= q < proxies.len() && p != q ==> #[trigger] spec_apart(
            proxies,
            p,
            q,
        )
}

/// Whether the boxes of the proxies `p` and `q` intersect, and their
/// intervals on axis `dim` share more than an endpoint.
pub open spec fn spec_overlapping(proxies: Seq<BroadPhaseProxy>, p: int, q: int, dim: int) -> bool {
    &&& proxies[p].aabb.intersects(&proxies[q].aabb)
    &&& proxies[p].aabb.mins.spec_coord(dim).raw < proxies[q].aabb.maxs.spec_coord(dim).raw
    &&& proxies[q].aabb.mins.spec_coord(dim).raw < proxies[p].aabb.maxs.spec_coord(dim).raw
}

/// Dropping the proxies outside the window a second time, with nothing moved
/// in between, clears no bit: the count of the second call is zero.
pub proof fn lemma_delete_out_of_bounds_twice(axis: SAPAxis, bits: Seq<bool>)
    ensures
        axis.spec_delete_out_of_bounds(axis.spec_delete_out_of_bounds(bits))
            == axis.spec_delete_out_of_bounds(bits),
        spec_count_set(axis.spec_delete_out_of_bounds(bits)) - spec_count_set(
            axis.spec_delete_out_of_bounds(axis.spec_delete_out_of_bounds(bits)),
        ) == 0,
{
    let once = axis.spec_delete_out_of_bounds(bits);
    let twice = axis.spec_delete_out_of_bounds(once);
    assert(twice =~= once);
}

/// Where the boxes of any two different proxies are apart on some axis, a
/// pair of different proxies that the reporting map holds as overlapping
/// after reports were written was held so before: no such pair is reported
/// as overlapping, whether by an insertion or by an update.
pub proof fn lemma_disjoint_boxes_report_no_overlap(
    base: Map<(u32, u32), bool>,
    proxies: Seq<BroadPhaseProxy>,
    reported: spec_fn((u32, u32)) -> bool,
    pair: (u32, u32),
)
    requires
        spec_pairwise_disjoint(proxies),
        pair.0 != pair.1,
        pair.0 < proxies.len(),
        pair.1 < proxies.len(),
        spec_reports_written(base, proxies, reported).contains_key(pair),
        spec_reports_written(base, proxies, reported)[pair],
    ensures
        base.contains_key(pair),
        base[pair],
{
    let p = pair.0 as int;
    let q = pair.1 as int;
    assert(spec_apart(proxies, p, q));
    let dim = choose|dim: int|
        0 <= dim < 3 && #[trigger] proxies[p].aabb.spec_disjoint_on(&proxies[q].aabb, dim);
    crate::geometry::aabb::lemma_disjoint_boxes_do_not_intersect(
        proxies[p].aabb,
        proxies[q].aabb,
        dim,
    );
}

/// An insertion reports a pair only where the two proxies differ and their
/// boxes intersect.
pub proof fn lemma_insertion_reports_only_intersecting(
    endpoints: Seq<SAPEndpoint>,
    placed: Seq<(SAPEndpoint, usize)>,
    upto: int,
    dim: int,
    proxies: Seq<BroadPhaseProxy>,
    pair: (u32, u32),
)
    requires
        spec_insertion_reports(endpoints, placed, upto, dim, proxies, pair),
    ensures
        pair.0 != pair.1,
        spec_pair_intersects(proxies, pair),
{
    let k = choose|k: int|
        0 <= k < upto && (#[trigger] placed[k]).0.is_start() && spec_scan_reports(
            endpoints,
            placed[k].0,
            placed[k].1 + 1,
            endpoints.len() - 1,
            dim,
            proxies,
            pair,
        );
    let first = placed[k].0;
    let j = choose|j: int|
        placed[k].1 + 1 <= j < endpoints.len() - 1 && spec_candidate(
            first,
            #[trigger] endpoints[j],
            dim,
            proxies,
        ) && pair == spec_sort2(first.proxy(), endpoints[j].proxy());
    lemma_intersects_symmetric(
        proxies[first.proxy() as int].aabb,
        proxies[endpoints[j].proxy() as int].aabb,
    );
}

/// Where the boxes of any two different proxies of the table are apart on
/// some axis, the insertion of a batch of proxies of the table leaves the
/// reporting map as it was. Here `before` holds the endpoints of the axis
/// before the insertion, without the last sentinel, and `after` is the axis
/// after it.
pub proof fn lemma_batch_insert_of_disjoint_boxes_reports_nothing(
    base: Map<(u32, u32), bool>,
    before: Seq<SAPEndpoint>,
    after: SAPAxis,
    dim: int,
    new_proxies: Seq<usize>,
    proxies: Seq<BroadPhaseProxy>,
)
    requires
        spec_pairwise_disjoint(proxies),
        after.spec_proxies_known(proxies),
        forall|i: int|
            0 <= i < new_proxies.len() ==> (#[trigger] new_proxies[i]) < proxies.len()
                && new_proxies[i] < SENTINEL_PROXY,
    ensures
        spec_reports_written(
            base,
            proxies,
            |pair: (u32, u32)|
                spec_insertion_reports(
                    after.endpoints@,
                    spec_placed(
                        before,
                        spec_sort(spec_new_endpoints(dim, new_proxies, proxies)),
                    ),
                    2 * new_proxies.len() as int,
                    dim,
                    proxies,
                    pair,
                ),
        ) == base,
{
    let fresh = spec_new_endpoints(dim, new_proxies, proxies);
    let b = spec_sort(fresh);
    let placed = spec_placed(before, b);
    let upto = 2 * new_proxies.len() as int;
    let endpoints = after.endpoints@;
    let written = spec_reports_written(
        base,
        proxies,
        |pair: (u32, u32)| spec_insertion_reports(endpoints, placed, upto, dim, proxies, pair),
    );
    lemma_sort_sorts(fresh);
    assert forall|pair: (u32, u32)|
        !spec_insertion_reports(endpoints, placed, upto, dim, proxies, pair) by {
        if spec_insertion_reports(endpoints, placed, upto, dim, proxies, pair) {
            let k = choose|k: int|
                0 <= k < upto && (#[trigger] placed[k]).0.is_start() && spec_scan_reports(
                    endpoints,
                    placed[k].0,
                    placed[k].1 + 1,
                    endpoints.len() - 1,
                    dim,
                    proxies,
                    pair,
                );
            let first = placed[k].0;
            let j = choose|j: int|
                placed[k].1 + 1 <= j < endpoints.len() - 1 && spec_candidate(
                    first,
                    #[trigger] endpoints[j],
                    dim,
                    proxies,
                ) && pair == spec_sort2(first.proxy(), endpoints[j].proxy());
            let second = endpoints[j];
            assert(b.contains(first));
            let x = choose|x: int| 0 <= x < fresh.len() && fresh[x] == first;
            assert(first.proxy() == new_proxies[x / 2] as u32);
            let p = first.proxy() as int;
            let q = second.proxy() as int;
            assert(spec_apart(proxies, p, q));
            let apart = choose|apart: int|
                0 <= apart < 3 && #[trigger] proxies[p].aabb.spec_disjoint_on(
                    &proxies[q].aabb,
                    apart,
                );
            crate::geometry::aabb::lemma_disjoint_boxes_do_not_intersect(
                proxies[p].aabb,
                proxies[q].aabb,
                apart,
            );
        }
    }
    assert(written =~= base);
}

/// The insertion of a batch reports every two different proxies of the
/// batch whose boxes intersect and whose intervals on the axis share more
/// than an endpoint: afterwards the reporting map holds the pair as
/// overlapping.
pub proof fn lemma_batch_insert_reports_overlapping(
    base: Map<(u32, u32), bool>,
    before: Seq<SAPEndpoint>,
    dim: int,
    new_proxies: Seq<usize>,
    proxies: Seq<BroadPhaseProxy>,
    i: int,
    j: int,
)
    requires
        before.len() >= 1,
        0 <= dim < 3,
        0 <= i < new_proxies.len(),
        0 <= j < new_proxies.len(),
        new_proxies[i] != new_proxies[j],
        new_proxies[i] < proxies.len() && new_proxies[i] < SENTINEL_PROXY,
        new_proxies[j] < proxies.len() && new_proxies[j] < SENTINEL_PROXY,
        spec_overlapping(proxies, new_proxies[i] as int, new_proxies[j] as int, dim),
    ensures
        ({
            let a = before.drop_last();
            let b = spec_sort(spec_new_endpoints(dim, new_proxies, proxies));
            let after = spec_merge(a, b).push(SAPEndpoint::end_sentinel());
            let pair = spec_sort2(new_proxies[i] as u32, new_proxies[j] as u32);
            spec_insertion_reports(
                after,
                spec_placed(a, b),
                2 * new_proxies.len() as int,
                dim,
                proxies,
                pair,
            )
        }),
        ({
            let a = before.drop_last();
            let b = spec_sort(spec_new_endpoints(dim, new_proxies, proxies));
            let after = spec_merge(a, b).push(SAPEndpoint::end_sentinel());
            let pair = spec_sort2(new_proxies[i] as u32, new_proxies[j] as u32);
            let written = spec_reports_written(
                base,
                proxies,
                |pair: (u32, u32)|
                    spec_insertion_reports(
                        after,
                        spec_placed(a, b),
                        2 * new_proxies.len() as int,
                        dim,
                        proxies,
                        pair,
                    ),
            );
            &&& written.contains_key(pair)
            &&& written[pair]
        }),
{
    let a = before.drop_last();
    let fresh = spec_new_endpoints(dim, new_proxies, proxies);
    let b = spec_sort(fresh);
    let merged = spec_merge(a, b);
    let after = merged.push(SAPEndpoint::end_sentinel());
    let placed = spec_placed(a, b);
    let p = new_proxies[i];
    let q = new_proxies[j];
    let pair = spec_sort2(p as u32, q as u32);
    lemma_sort_sorts(fresh);
    lemma_merge_permutes(a, b);
    let start_p = fresh[2 * i];
    let start_q = fresh[2 * j];
    assert(start_p == SAPEndpoint::start_endpoint(proxies[p as int].aabb.mins.spec_coord(dim), p as u32));
    assert(start_q == SAPEndpoint::start_endpoint(proxies[q as int].aabb.mins.spec_coord(dim), q as u32));
    assert(fresh.contains(start_p));
    assert(fresh.contains(start_q));
    assert(b.contains(start_p));
    assert(b.contains(start_q));
    let k = choose|k: int| 0 <= k < b.len() && b[k] == start_p;
    let l = choose|l: int| 0 <= l < b.len() && b[l] == start_q;
    assert(k != l);
    lemma_merge_position(a, b, k);
    lemma_merge_position(a, b, l);
    lemma_intersects_symmetric(proxies[p as int].aabb, proxies[q as int].aabb);
    let at_k = spec_merge_position(a, b, k);
    let at_l = spec_merge_position(a, b, l);
    assert(placed[k] == (b[k], at_k as usize));
    assert(placed[l] == (b[l], at_l as usize));
    if k < l {
        lemma_merge_position_increases(a, b, k, l);
        assert(after[at_l] == start_q);
        assert(spec_candidate(start_p, after[at_l], dim, proxies));
        assert(spec_scan_reports(after, start_p, at_k + 1, after.len() - 1, dim, proxies, pair));
        assert(placed[k].0.is_start());
    } else {
        lemma_merge_position_increases(a, b, l, k);
        assert(after[at_k] == start_p);
        assert(spec_candidate(start_q, after[at_k], dim, proxies));
        assert(spec_scan_reports(after, start_q, at_l + 1, after.len() - 1, dim, proxies, pair));
        assert(placed[l].0.is_start());
    }
    assert(spec_insertion_reports(after, placed, 2 * new_proxies.len() as int, dim, proxies, pair));
}

/// Whether `pair` holds two different proxies of the batch, in ascending
/// order.
pub open spec fn spec_batch_pair(new_proxies: Seq<usize>, pair: (u32, u32)) -> bool {
    exists|i: int, j: int|
        0 <= i < new_proxies.len() && 0 <= j < new_proxies.len() && (#[trigger] new_proxies[i])
            != (#[trigger] new_proxies[j]) && pair == spec_sort2(
            new_proxies[i] as u32,
            new_proxies[j] as u32,
        )
}

/// A batch of proxies whose boxes all intersect one another, and whose
/// intervals on the axis all share more than an endpoint, inserted into an
/// axis without proxies, reports exactly the pairs of different proxies of
/// the batch.
pub proof fn lemma_batch_insert_reports_every_pair_once(
    dim: int,
    new_proxies: Seq<usize>,
    proxies: Seq<BroadPhaseProxy>,
    pair: (u32, u32),
)
    requires
        0 <= dim < 3,
        forall|i: int|
            0 <= i < new_proxies.len() ==> (#[trigger] new_proxies[i]) < proxies.len()
                && new_proxies[i] < SENTINEL_PROXY,
        forall|i: int, j: int|
            0 <= i < new_proxies.len() && 0 <= j < new_proxies.len() && (#[trigger] new_proxies[i])
                != (#[trigger] new_proxies[j]) ==> spec_overlapping(
                proxies,
                new_proxies[i] as int,
                new_proxies[j] as int,
                dim,
            ),
    ensures
        ({
            let a = seq![SAPEndpoint::start_sentinel()];
            let b = spec_sort(spec_new_endpoints(dim, new_proxies, proxies));
            let after = spec_merge(a, b).push(SAPEndpoint::end_sentinel());
            spec_insertion_reports(
                after,
                spec_placed(a, b),
                2 * new_proxies.len() as int,
                dim,
                proxies,
                pair,
            ) <==> spec_batch_pair(new_proxies, pair)
        }),
{
    let before = seq![SAPEndpoint::start_sentinel(), SAPEndpoint::end_sentinel()];
    let a = seq![SAPEndpoint::start_sentinel()];
    assert(before.drop_last() =~= a);
    let fresh = spec_new_endpoints(dim, new_proxies, proxies);
    let b = spec_sort(fresh);
    let merged = spec_merge(a, b);
    let after = merged.push(SAPEndpoint::end_sentinel());
    let placed = spec_placed(a, b);
    let upto = 2 * new_proxies.len() as int;
    lemma_sort_sorts(fresh);
    lemma_merge_permutes(a, b);
    if spec_batch_pair(new_proxies, pair) {
        let (i, j) = choose|i: int, j: int|
            0 <= i < new_proxies.len() && 0 <= j < new_proxies.len() && (#[trigger] new_proxies[i])
                != (#[trigger] new_proxies[j]) && pair == spec_sort2(
                new_proxies[i] as u32,
                new_proxies[j] as u32,
            );
        lemma_batch_insert_reports_overlapping(
            Map::empty(),
            before,
            dim,
            new_proxies,
            proxies,
            i,
            j,
        );
    }
    if spec_insertion_reports(after, placed, upto, dim, proxies, pair) {
        let k = choose|k: int|
            0 <= k < upto && (#[trigger] placed[k]).0.is_start() && spec_scan_reports(
                after,
                placed[k].0,
                placed[k].1 + 1,
                after.len() - 1,
                dim,
                proxies,
                pair,
            );
        let first = placed[k].0;
        let at = choose|at: int|
            placed[k].1 + 1 <= at < after.len() - 1 && spec_candidate(
                first,
                #[trigger] after[at],
                dim,
                proxies,
            ) && pair == spec_sort2(first.proxy(), after[at].proxy());
        let second = after[at];
        assert(at >= 1);
        lemma_merge_position(a, b, at - 1);
        crate::geometry::merge::lemma_rank(a, b[at - 1].value, 1);
        assert(second == b[at - 1]);
        assert(b.contains(first));
        assert(b.contains(second));
        let x = choose|x: int| 0 <= x < fresh.len() && fresh[x] == first;
        let y = choose|y: int| 0 <= y < fresh.len() && fresh[y] == second;
        assert(first.proxy() == new_proxies[x / 2] as u32);
        assert(second.proxy() == new_proxies[y / 2] as u32);
        assert(new_proxies[x / 2] != new_proxies[y / 2]);
    }
}

/// The pairs that hold `x` and one of the first `m` proxies of `front`.
pub open spec fn spec_pairs_with(front: Seq<usize>, x: usize, m: int) -> Set<(u32, u32)> {
    Set::new(
        |pair: (u32, u32)|
            exists|k: int|
                0 <= k < m && pair == spec_sort2((#[trigger] front[k]) as u32, x as u32),
    )
}

/// The pairs of different proxies of a batch.
pub open spec fn spec_batch_pairs(new_proxies: Seq<usize>) -> Set<(u32, u32)> {
    Set::new(|pair: (u32, u32)| spec_batch_pair(new_proxies, pair))
}

/// Whether no proxy occurs twice in the batch and none is the sentinel mark
/// or greater.
pub open spec fn spec_distinct_proxies(new_proxies: Seq<usize>) -> bool {
    &&& forall|i: int| 0 <= i < new_proxies.len() ==> (#[trigger] new_proxies[i]) < SENTINEL_PROXY
    &&& forall|i: int, j: int|
        0 <= i < j < new_proxies.len() ==> (#[trigger] new_proxies[i]) != (
        #[trigger] new_proxies[j])
}

/// A proxy that is not among the first `m` of `front` makes `m` pairs with
/// them.
proof fn lemma_pairs_with_count(front: Seq<usize>, x: usize, m: int)
    requires
        0 <= m <= front.len(),
        spec_distinct_proxies(front),
        x < SENTINEL_PROXY,
        forall|k: int| 0 <= k < front.len() ==> (#[trigger] front[k]) != x,
    ensures
        spec_pairs_with(front, x, m).finite(),
        spec_pairs_with(front, x, m).len() == m,
    decreases m,
{
    if m == 0 {
        assert(spec_pairs_with(front, x, m) =~= Set::<(u32, u32)>::empty());
    } else {
        lemma_pairs_with_count(front, x, m - 1);
        let fewer = spec_pairs_with(front, x, m - 1);
        let added = spec_sort2(front[m - 1] as u32, x as u32);
        assert(!fewer.contains(added)) by {
            if fewer.contains(added) {
                let k = choose|k: int|
                    0 <= k < m - 1 && added == spec_sort2((#[trigger] front[k]) as u32, x as u32);
                assert(front[k] != front[m - 1]);
            }
        }
        assert(spec_pairs_with(front, x, m) =~= fewer.insert(added)) by {
            assert forall|pair: (u32, u32)|
                spec_pairs_with(front, x, m).contains(pair) == fewer.insert(added).contains(
                    pair,
                ) by {
                if fewer.contains(pair) {
                    let k = choose|k: int|
                        0 <= k < m - 1 && pair == spec_sort2(
                            (#[trigger] front[k]) as u32,
                            x as u32,
                        );
                    assert(front[k] == front[k]);
                }
                if pair == added {
                    assert(front[m - 1] == front[m - 1]);
                }
            }
        }
    }
}

/// A batch of `n` different proxies has `n * (n - 1) / 2` pairs of different
/// proxies.
pub proof fn lemma_batch_pairs_count(new_proxies: Seq<usize>)
    requires
        spec_distinct_proxies(new_proxies),
    ensures
        spec_batch_pairs(new_proxies).finite(),
        2 * spec_batch_pairs(new_proxies).len() == new_proxies.len() * (new_proxies.len() - 1),
    decreases new_proxies.len(),
{
    let n = new_proxies.len() as int;
    if n == 0 {
        assert(spec_batch_pairs(new_proxies) =~= Set::<(u32, u32)>::empty());
    } else {
        let front = new_proxies.drop_last();
        let x = new_proxies.last();
        assert(spec_distinct_proxies(front)) by {
            assert forall|i: int, j: int| 0 <= i < j < front.len() implies (#[trigger] front[i])
                != (#[trigger] front[j]) by {
                assert(new_proxies[i] != new_proxies[j]);
            }
            assert forall|i: int| 0 <= i < front.len() implies (#[trigger] front[i])
                < SENTINEL_PROXY by {
                assert(new_proxies[i] < SENTINEL_PROXY);
            }
        }
        assert forall|k: int| 0 <= k < front.len() implies (#[trigger] front[k]) != x by {
            assert(new_proxies[k] != new_proxies[n - 1]);
        }
        lemma_batch_pairs_count(front);
        lemma_pairs_with_count(front, x, n - 1);
        let old_pairs = spec_batch_pairs(front);
        let with_x = spec_pairs_with(front, x, n - 1);
        assert(old_pairs.disjoint(with_x)) by {
            assert forall|pair: (u32, u32)| !(old_pairs.contains(pair) && with_x.contains(pair)) by {
                if old_pairs.contains(pair) && with_x.contains(pair) {
                    let k = choose|k: int|
                        0 <= k < n - 1 && pair == spec_sort2((#[trigger] front[k]) as u32, x as u32);
                    let (i, j) = choose|i: int, j: int|
                        0 <= i < front.len() && 0 <= j < front.len() && (#[trigger] front[i]) != (
                        #[trigger] front[j]) && pair == spec_sort2(
                            front[i] as u32,
                            front[j] as u32,
                        );
                    assert(front[i] != x && front[j] != x);
                }
            }
        }
        assert(spec_batch_pairs(new_proxies) =~= old_pairs + with_x) by {
            assert forall|pair: (u32, u32)|
                spec_batch_pairs(new_proxies).contains(pair) == (old_pairs + with_x).contains(
                    pair,
                ) by {
                if old_pairs.contains(pair) {
                    let (i, j) = choose|i: int, j: int|
                        0 <= i < front.len() && 0 <= j < front.len() && (#[trigger] front[i]) != (
                        #[trigger] front[j]) && pair == spec_sort2(
                            front[i] as u32,
                            front[j] as u32,
                        );
                    assert(new_proxies[i] == front[i] && new_proxies[j] == front[j]);
                }
                if with_x.contains(pair) {
                    let k = choose|k: int|
                        0 <= k < n - 1 && pair == spec_sort2((#[trigger] front[k]) as u32, x as u32);
                    assert(new_proxies[k] == front[k] && new_proxies[n - 1] == x);
                }
                if spec_batch_pairs(new_proxies).contains(pair) {
                    let (i, j) = choose|i: int, j: int|
                        0 <= i < n && 0 <= j < n && (#[trigger] new_proxies[i]) != (
                        #[trigger] new_proxies[j]) && pair == spec_sort2(
                            new_proxies[i] as u32,
                            new_proxies[j] as u32,
                        );
                    if i < n - 1 && j < n - 1 {
                        assert(front[i] != front[j]);
                    } else if i == n - 1 {
                        assert(front[j] == new_proxies[j]);
                    } else {
                        assert(front[i] == new_proxies[i]);
                    }
                }
            }
        }
        vstd::set_lib::lemma_set_disjoint_lens(old_pairs, with_x);
        assert(2 * (old_pairs.len() + with_x.len()) == n * (n - 1)) by (nonlinear_arith)
            requires
                2 * old_pairs.len() == (n - 1) * (n - 2),
                with_x.len() == n - 1,
        ;
    }
}

/// A batch of `n` different proxies whose boxes all intersect one another,
/// and whose intervals on the axis all share more than an endpoint, inserted
/// into an axis without proxies and reported to an empty map, leaves
/// `n * (n - 1) / 2` entries in the map, each a pair held as overlapping.
pub proof fn lemma_batch_insert_counts_every_pair(
    dim: int,
    new_proxies: Seq<usize>,
    proxies: Seq<BroadPhaseProxy>,
)
    requires
        0 <= dim < 3,
        spec_distinct_proxies(new_proxies),
        forall|i: int| 0 <= i < new_proxies.len() ==> (#[trigger] new_proxies[i]) < proxies.len(),
        forall|i: int, j: int|
            0 <= i < new_proxies.len() && 0 <= j < new_proxies.len() && (#[trigger] new_proxies[i])
                != (#[trigger] new_proxies[j]) ==> spec_overlapping(
                proxies,
                new_proxies[i] as int,
                new_proxies[j] as int,
                dim,
            ),
    ensures
        ({
            let a = seq![SAPEndpoint::start_sentinel()];
            let b = spec_sort(spec_new_endpoints(dim, new_proxies, proxies));
            let after = spec_merge(a, b).push(SAPEndpoint::end_sentinel());
            let written = spec_reports_written(
                Map::empty(),
                proxies,
                |pair: (u32, u32)|
                    spec_insertion_reports(
                        after,
                        spec_placed(a, b),
                        2 * new_proxies.len() as int,
                        dim,
                        proxies,
                        pair,
                    ),
            );
            &&& written.dom() == spec_batch_pairs(new_proxies)
            &&& written.dom().finite()
            &&& 2 * written.dom().len() == new_proxies.len() * (new_proxies.len() - 1)
            &&& forall|pair: (u32, u32)| written.contains_key(pair) ==> #[trigger] written[pair]
        }),
{
    let a = seq![SAPEndpoint::start_sentinel()];
    let b = spec_sort(spec_new_endpoints(dim, new_proxies, proxies));
    let after = spec_merge(a, b).push(SAPEndpoint::end_sentinel());
    let placed = spec_placed(a, b);
    let upto = 2 * new_proxies.len() as int;
    let written = spec_reports_written(
        Map::empty(),
        proxies,
        |pair: (u32, u32)| spec_insertion_reports(after, placed, upto, dim, proxies, pair),
    );
    assert forall|pair: (u32, u32)|
        written.dom().contains(pair) == spec_batch_pairs(new_proxies).contains(pair) by {
        lemma_batch_insert_reports_every_pair_once(dim, new_proxies, proxies, pair);
    }
    assert(written.dom() =~= spec_batch_pairs(new_proxies));
    lemma_batch_pairs_count(new_proxies);
    assert forall|pair: (u32, u32)| written.contains_key(pair) implies #[trigger] written[pair] by {
        lemma_insertion_reports_only_intersecting(after, placed, upto, dim, proxies, pair);
    }
}

} // verus!
