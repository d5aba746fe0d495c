//! One axis of a sweep-and-prune broad phase.
//!
//! The axis keeps the two endpoints of every proxy in one sequence, sorted by
//! value, between a sentinel below every value and a sentinel above every
//! value. Two boxes can only overlap while their intervals overlap on every
//! axis, so the order of the endpoints tells which pairs are worth an exact
//! test.

use crate::geometry::bitset::{
    bit_at, bit_count, bit_values, lemma_count_set_clear, set_bit, spec_count_set,
};
use crate::geometry::endpoint::{sort2, spec_sort2, SAPEndpoint, NUM_SENTINELS};
use crate::geometry::merge::{
    lemma_count_kind_joined, lemma_count_kind_total, lemma_filter_keeps_order,
    lemma_insertion_sort_sorts, lemma_merge_permutes, lemma_merge_single, spec_count_kind,
    spec_insertion_sort, spec_merge, spec_sorted,
};
use crate::geometry::pair_map::report_pair;
use crate::geometry::proxy::{BroadPhaseProxies, BroadPhaseProxy};
use crate::math::{Real, DIM};
use bit_vec::BitVec;
use parry3d::utils::hashmap::HashMap;
use vstd::prelude::*;

verus! {

/// The sorted endpoints of the proxies along one axis.
pub struct SAPAxis {
    /// Lower end of the window outside of which proxies are dropped.
    pub min_bound: Real,
    /// Upper end of that window.
    pub max_bound: Real,
    pub endpoints: Vec<SAPEndpoint>,
    /// Workspace: the endpoints of the last batch, each with the index at
    /// which it was inserted.
    pub new_endpoints: Vec<(SAPEndpoint, usize)>,
}

/// The endpoints that outlive a pruning: the sentinels, and those whose proxy
/// still exists.
pub open spec fn spec_survives(bits: Seq<bool>) -> spec_fn(SAPEndpoint) -> bool {
    |e: SAPEndpoint| e.is_sentinel() || bits[e.proxy() as int]
}

/// The endpoint with its value taken anew from the box of its proxy: the
/// lower bound on axis `dim` for a start, the upper bound for an end.
pub open spec fn spec_refresh(e: SAPEndpoint, dim: int, proxies: Seq<BroadPhaseProxy>) -> SAPEndpoint {
    let aabb = proxies[e.proxy() as int].aabb;
    SAPEndpoint {
        value: if e.is_start() {
            aabb.mins.spec_coord(dim)
        } else {
            aabb.maxs.spec_coord(dim)
        },
        ..e
    }
}

/// The endpoints of an axis with the value of each taken anew; the two
/// sentinels stay as they are.
pub open spec fn spec_refreshed(
    s: Seq<SAPEndpoint>,
    dim: int,
    proxies: Seq<BroadPhaseProxy>,
) -> Seq<SAPEndpoint> {
    Seq::new(
        s.len(),
        |i: int|
            if 0 < i < s.len() - 1 {
                spec_refresh(s[i], dim, proxies)
            } else {
                s[i]
            },
    )
}

/// Whether the boxes of the two proxies of `pair` intersect.
pub open spec fn spec_pair_intersects(proxies: Seq<BroadPhaseProxy>, pair: (u32, u32)) -> bool {
    proxies[pair.0 as int].aabb.intersects(&proxies[pair.1 as int].aabb)
}

/// Whether moving the endpoint `moved` down past the endpoint `passed` is
/// reported: a start that passes an end, where the boxes of the two proxies
/// intersect; or an end that passes a start, where they do not.
pub open spec fn spec_swap_reports(
    moved: SAPEndpoint,
    passed: SAPEndpoint,
    proxies: Seq<BroadPhaseProxy>,
) -> bool {
    let hit = proxies[moved.proxy() as int].aabb.intersects(
        &proxies[passed.proxy() as int].aabb,
    );
    (moved.is_start() && passed.is_end() && hit) || (moved.is_end() && passed.is_start() && !hit)
}

/// Whether putting `moved` in its place among the endpoints of `front`
/// reports `pair`: `moved` passes a greater endpoint of `front`, the two
/// belong to the proxies of `pair`, and the move is reported.
pub open spec fn spec_passing_reports(
    front: Seq<SAPEndpoint>,
    moved: SAPEndpoint,
    proxies: Seq<BroadPhaseProxy>,
    pair: (u32, u32),
) -> bool {
    exists|k: int|
        0 <= k < front.len() && (#[trigger] front[k]).value.raw > moved.value.raw
            && spec_swap_reports(moved, front[k], proxies) && pair == spec_sort2(
            moved.proxy(),
            front[k].proxy(),
        )
}

/// Whether sorting the endpoints `r` reports `pair` for an endpoint with an
/// index below `upto`: that endpoint is less than one that stands before it,
/// the two belong to the proxies of `pair`, and the move is reported.
pub open spec fn spec_inversion_reports(
    r: Seq<SAPEndpoint>,
    proxies: Seq<BroadPhaseProxy>,
    pair: (u32, u32),
    upto: int,
) -> bool {
    exists|a: int, b: int|
        0 <= a < b < upto && (#[trigger] r[a]).value.raw > (#[trigger] r[b]).value.raw
            && spec_swap_reports(r[b], r[a], proxies) && pair == spec_sort2(
            r[b].proxy(),
            r[a].proxy(),
        )
}

/// The reporting map after the pairs that `reported` holds of were written
/// to it: each to `true` where the boxes of its proxies intersect, to `false`
/// where they do not.
pub open spec fn spec_reports_written(
    base: Map<(u32, u32), bool>,
    proxies: Seq<BroadPhaseProxy>,
    reported: spec_fn((u32, u32)) -> bool,
) -> Map<(u32, u32), bool> {
    Map::new(
        |pair: (u32, u32)| base.contains_key(pair) || reported(pair),
        |pair: (u32, u32)|
            if reported(pair) {
                spec_pair_intersects(proxies, pair)
            } else {
                base[pair]
            },
    )
}

/// Sorting one more endpoint reports what sorting the endpoints before it
/// reported, and what putting that endpoint in its place among them reports.
pub proof fn lemma_inversion_reports_step(
    r: Seq<SAPEndpoint>,
    front: Seq<SAPEndpoint>,
    proxies: Seq<BroadPhaseProxy>,
    i: int,
)
    requires
        0 <= i < r.len(),
        forall|e: SAPEndpoint| #[trigger] front.contains(e) <==> r.take(i).contains(e),
    ensures
        forall|pair: (u32, u32)|
            #![trigger spec_inversion_reports(r, proxies, pair, i + 1)]
            #![trigger spec_inversion_reports(r, proxies, pair, i)]
            #![trigger spec_passing_reports(front, r[i], proxies, pair)]
            spec_inversion_reports(r, proxies, pair, i + 1) == (spec_inversion_reports(
                r,
                proxies,
                pair,
                i,
            ) || spec_passing_reports(front, r[i], proxies, pair)),
{
    assert forall|pair: (u32, u32)|
        #![trigger spec_inversion_reports(r, proxies, pair, i + 1)]
        #![trigger spec_inversion_reports(r, proxies, pair, i)]
        #![trigger spec_passing_reports(front, r[i], proxies, pair)]
        spec_inversion_reports(r, proxies, pair, i + 1) == (spec_inversion_reports(
            r,
            proxies,
            pair,
            i,
        ) || spec_passing_reports(front, r[i], proxies, pair)) by {
        if spec_inversion_reports(r, proxies, pair, i) {
            let (a, b) = choose|a: int, b: int|
                0 <= a < b < i && (#[trigger] r[a]).value.raw > (#[trigger] r[b]).value.raw
                    && spec_swap_reports(r[b], r[a], proxies) && pair == spec_sort2(
                    r[b].proxy(),
                    r[a].proxy(),
                );
            assert(r[a].value.raw > r[b].value.raw);
        }
        if spec_passing_reports(front, r[i], proxies, pair) {
            let k = choose|k: int|
                0 <= k < front.len() && (#[trigger] front[k]).value.raw > r[i].value.raw
                    && spec_swap_reports(r[i], front[k], proxies) && pair == spec_sort2(
                    r[i].proxy(),
                    front[k].proxy(),
                );
            assert(front.contains(front[k]));
            let a = choose|a: int| 0 <= a < r.take(i).len() && r.take(i)[a] == front[k];
            assert(r[a].value.raw > r[i].value.raw);
        }
        if spec_inversion_reports(r, proxies, pair, i + 1) && !spec_inversion_reports(
            r,
            proxies,
            pair,
            i,
        ) {
            let (a, b) = choose|a: int, b: int|
                0 <= a < b < i + 1 && (#[trigger] r[a]).value.raw > (#[trigger] r[b]).value.raw
                    && spec_swap_reports(r[b], r[a], proxies) && pair == spec_sort2(
                    r[b].proxy(),
                    r[a].proxy(),
                );
            if b < i {
                assert(r[a].value.raw > r[b].value.raw);
            } else {
                assert(r.take(i)[a] == r[a]);
                assert(r.take(i).contains(r[a]));
                assert(front.contains(r[a]));
                let k = choose|k: int| 0 <= k < front.len() && front[k] == r[a];
                assert(front[k].value.raw > r[i].value.raw);
            }
        }
    }
}

impl SAPAxis {
    /// Whether every endpoint but the two sentinels belongs to a proxy of
    /// the table.
    pub open spec fn spec_proxies_known(&self, proxies: Seq<BroadPhaseProxy>) -> bool {
        forall|i: int|
            0 < i < self.endpoints@.len() - 1 ==> (#[trigger] self.endpoints@[i]).proxy()
                < proxies.len()
    }

    /// The window is not inverted, and the endpoints are sorted between the
    /// two sentinels.
    pub open spec fn wf(&self) -> bool {
        &&& self.min_bound.raw <= self.max_bound.raw
        &&& self.endpoints@.len() >= 2
        &&& self.endpoints@[0] == SAPEndpoint::start_sentinel()
        &&& self.endpoints@.last() == SAPEndpoint::end_sentinel()
        &&& spec_sorted(self.endpoints@)
    }

    /// Whether every endpoint up to index `i` lies below the window.
    pub open spec fn spec_below_window(&self, i: int) -> bool {
        forall|k: int| 0 <= k <= i ==> (#[trigger] self.endpoints@[k]).value.raw < self.min_bound.raw
    }

    /// Whether every endpoint from index `i` on lies above the window.
    pub open spec fn spec_above_window(&self, i: int) -> bool {
        forall|k: int|
            i <= k < self.endpoints@.len() ==> (#[trigger] self.endpoints@[k]).value.raw
                > self.max_bound.raw
    }

    /// Whether the endpoint at index `i` shows that its proxy lies wholly
    /// below the window: the proxy ends there, and nothing before it reaches
    /// the window.
    pub open spec fn spec_ends_below(&self, i: int) -> bool {
        self.endpoints@[i].is_end() && self.spec_below_window(i)
    }

    /// Whether the endpoint at index `i` shows that its proxy lies wholly
    /// above the window: the proxy starts there, and nothing after it reaches
    /// the window.
    pub open spec fn spec_starts_above(&self, i: int) -> bool {
        self.endpoints@[i].is_start() && self.spec_above_window(i)
    }

    /// Whether an endpoint with an index from `lo` up to, not including, `hi`
    /// shows that proxy `p` lies below the window.
    pub open spec fn spec_below_within(&self, p: int, lo: int, hi: int) -> bool {
        exists|i: int|
            lo <= i < hi && #[trigger] self.spec_ends_below(i) && self.endpoints@[i].proxy() == p
    }

    /// Whether an endpoint with an index from `lo` up to, not including, `hi`
    /// shows that proxy `p` lies above the window.
    pub open spec fn spec_above_within(&self, p: int, lo: int, hi: int) -> bool {
        exists|i: int|
            lo <= i < hi && #[trigger] self.spec_starts_above(i) && self.endpoints@[i].proxy() == p
    }

    /// Whether proxy `p` lies wholly outside the window.
    pub open spec fn spec_out_of_bounds(&self, p: int) -> bool {
        self.spec_below_within(p, 0, self.endpoints@.len() as int) || self.spec_above_within(
            p,
            0,
            self.endpoints@.len() as int,
        )
    }

    /// Whether every proxy that the pruning of proxies looks up has a bit
    /// among the first `len`: the proxy of every end endpoint that shows its
    /// proxy below the window, and of every start endpoint that shows its
    /// proxy above.
    pub open spec fn spec_prunable_in_range(&self, len: nat) -> bool {
        &&& forall|i: int|
            0 <= i < self.endpoints@.len() && #[trigger] self.spec_ends_below(i)
                ==> self.endpoints@[i].proxy() < len
        &&& forall|i: int|
            0 <= i < self.endpoints@.len() && #[trigger] self.spec_starts_above(i)
                ==> self.endpoints@[i].proxy() < len
    }

    /// Whether the proxy of every endpoint but the sentinels has a bit among
    /// the first `len`.
    pub open spec fn spec_endpoints_in_range(&self, len: nat) -> bool {
        forall|i: int|
            0 <= i < self.endpoints@.len() && !(#[trigger] self.endpoints@[i]).is_sentinel()
                ==> self.endpoints@[i].proxy() < len
    }

    /// The existence bits after the proxies outside the window were dropped.
    pub open spec fn spec_delete_out_of_bounds(&self, bits: Seq<bool>) -> Seq<bool> {
        Seq::new(bits.len(), |p: int| bits[p] && !self.spec_out_of_bounds(p))
    }

    /// An axis without proxies, with the window from `min_bound` to
    /// `max_bound`.
    pub fn new(min_bound: Real, max_bound: Real) -> (axis: SAPAxis)
        requires
            min_bound.raw <= max_bound.raw,
        ensures
            axis.wf(),
            axis.min_bound == min_bound,
            axis.max_bound == max_bound,
            axis.endpoints@ == seq![SAPEndpoint::start_sentinel(), SAPEndpoint::end_sentinel()],
            axis.new_endpoints@.len() == 0,
    {
        let mut endpoints = Vec::new();
        endpoints.push(SAPEndpoint::start_sentinel());
        endpoints.push(SAPEndpoint::end_sentinel());
        SAPAxis { min_bound, max_bound, endpoints, new_endpoints: Vec::new() }
    }

    /// Clears the existence bit of every proxy that lies wholly outside the
    /// window, and returns how many bits it cleared.
    ///
    /// From the front, as long as endpoints lie below the window, the proxy
    /// of each end endpoint goes; from the back, as long as endpoints lie
    /// above the window, the proxy of each start endpoint.
    pub fn delete_out_of_bounds_proxies(&self, existing_proxies: &mut BitVec) -> (deleted: usize)
        requires
            self.spec_prunable_in_range(bit_values(*old(existing_proxies)).len()),
        ensures
            bit_values(*final(existing_proxies)) == self.spec_delete_out_of_bounds(
                bit_values(*old(existing_proxies)),
            ),
            deleted == spec_count_set(bit_values(*old(existing_proxies))) - spec_count_set(
                bit_values(*final(existing_proxies)),
            ),
    {
        let ghost before = bit_values(*existing_proxies);
        let ghost all = self.endpoints@;
        let n = self.endpoints.len();
        proof {
            assert(all.take(0) =~= Seq::<SAPEndpoint>::empty());
        }
        let mut deleted: usize = 0;
        let mut i: usize = 0;
        while i < n && self.endpoints[i].value.raw < self.min_bound.raw
            invariant
                i <= n == self.endpoints@.len(),
                i > 0 ==> self.spec_below_window(i - 1),
                all == self.endpoints@,
                deleted <= spec_count_kind(all.take(i as int), false) <= i,
                bit_values(*existing_proxies).len() == before.len(),
                forall|p: int|
                    0 <= p < before.len() ==> #[trigger] bit_values(*existing_proxies)[p] == (
                    before[p] && !self.spec_below_within(p, 0, i as int)),
                deleted + spec_count_set(bit_values(*existing_proxies)) == spec_count_set(before),
                forall|k: int|
                    0 <= k < n && #[trigger] self.spec_ends_below(k) ==> self.endpoints@[k].proxy()
                        < before.len(),
                forall|k: int|
                    0 <= k < n && #[trigger] self.spec_starts_above(k)
                        ==> self.endpoints@[k].proxy() < before.len(),
            decreases n - i,
        {
            let endpoint = self.endpoints[i];
            let proxy_idx = endpoint.proxy() as usize;
            let ghost current = bit_values(*existing_proxies);
            assert(self.spec_below_window(i as int));
            proof {
                assert(all.take(i + 1).drop_last() =~= all.take(i as int));
            }
            if endpoint.is_end() {
                assert(self.spec_ends_below(i as int));
                if bit_at(existing_proxies, proxy_idx) {
                    proof {
                        lemma_count_set_clear(current, proxy_idx as int);
                    }
                    set_bit(existing_proxies, proxy_idx, false);
                    deleted += 1;
                }
            }
            proof {
                assert forall|p: int| 0 <= p < before.len() implies bit_values(
                    *existing_proxies,
                )[p] == (before[p] && !self.spec_below_within(p, 0, i + 1)) by {
                    if self.spec_below_within(p, 0, i as int) {
                        let k = choose|k: int|
                            0 <= k < i && #[trigger] self.spec_ends_below(k)
                                && self.endpoints@[k].proxy() == p;
                        assert(self.spec_ends_below(k));
                    } else if self.spec_below_within(p, 0, i + 1) {
                        let k = choose|k: int|
                            0 <= k < i + 1 && #[trigger] self.spec_ends_below(k)
                                && self.endpoints@[k].proxy() == p;
                        assert(k == i);
                    } else {
                        if endpoint.is_end() && p == proxy_idx {
                            assert(self.spec_ends_below(i as int));
                        }
                    }
                }
            }
            i += 1;
        }
        let ghost low = i as int;
        let ghost middle = bit_values(*existing_proxies);
        proof {
            assert forall|p: int| 0 <= p < before.len() implies self.spec_below_within(
                p,
                0,
                n as int,
            ) == self.spec_below_within(p, 0, low) by {
                if self.spec_below_within(p, 0, n as int) {
                    let k = choose|k: int|
                        0 <= k < n && #[trigger] self.spec_ends_below(k)
                            && self.endpoints@[k].proxy() == p;
                    if k >= low {
                        assert(self.endpoints@[low].value.raw < self.min_bound.raw);
                    }
                }
                if self.spec_below_within(p, 0, low) {
                    let k = choose|k: int|
                        0 <= k < low && #[trigger] self.spec_ends_below(k)
                            && self.endpoints@[k].proxy() == p;
                    assert(self.spec_ends_below(k));
                }
            }
        }
        let mut j: usize = n;
        proof {
            assert(all.skip(n as int) =~= Seq::<SAPEndpoint>::empty());
            lemma_count_kind_total(all);
            lemma_count_kind_joined(all.take(low), all.skip(low), false);
            assert(all.take(low) + all.skip(low) =~= all);
        }
        while j > 0 && self.endpoints[j - 1].value.raw > self.max_bound.raw
            invariant
                j <= n == self.endpoints@.len(),
                self.spec_above_window(j as int),
                all == self.endpoints@,
                deleted <= spec_count_kind(all.take(low), false) + spec_count_kind(
                    all.skip(j as int),
                    true,
                ),
                spec_count_kind(all.take(low), false) <= spec_count_kind(all, false),
                spec_count_kind(all, true) + spec_count_kind(all, false) == n,
                bit_values(*existing_proxies).len() == before.len(),
                middle.len() == before.len(),
                forall|p: int|
                    0 <= p < before.len() ==> #[trigger] bit_values(*existing_proxies)[p] == (
                    middle[p] && !self.spec_above_within(p, j as int, n as int)),
                deleted + spec_count_set(bit_values(*existing_proxies)) == spec_count_set(before),
                forall|k: int|
                    0 <= k < n && #[trigger] self.spec_ends_below(k) ==> self.endpoints@[k].proxy()
                        < before.len(),
                forall|k: int|
                    0 <= k < n && #[trigger] self.spec_starts_above(k)
                        ==> self.endpoints@[k].proxy() < before.len(),
            decreases j,
        {
            let endpoint = self.endpoints[j - 1];
            let proxy_idx = endpoint.proxy() as usize;
            let ghost current = bit_values(*existing_proxies);
            assert(self.spec_above_window(j - 1));
            proof {
                assert(all.skip(j - 1) =~= seq![all[j - 1]] + all.skip(j as int));
                lemma_count_kind_joined(seq![all[j - 1]], all.skip(j as int), true);
                assert(seq![all[j - 1]].drop_last() =~= Seq::<SAPEndpoint>::empty());
                lemma_count_kind_joined(all.take(j - 1), all.skip(j - 1), true);
                assert(all.take(j - 1) + all.skip(j - 1) =~= all);
            }
            if endpoint.is_start() {
                assert(self.spec_starts_above(j - 1));
                if bit_at(existing_proxies, proxy_idx) {
                    proof {
                        lemma_count_set_clear(current, proxy_idx as int);
                    }
                    set_bit(existing_proxies, proxy_idx, false);
                    deleted += 1;
                }
            }
            proof {
                assert forall|p: int| 0 <= p < before.len() implies bit_values(
                    *existing_proxies,
                )[p] == (middle[p] && !self.spec_above_within(p, j - 1, n as int)) by {
                    if self.spec_above_within(p, j as int, n as int) {
                        let k = choose|k: int|
                            j <= k < n && #[trigger] self.spec_starts_above(k)
                                && self.endpoints@[k].proxy() == p;
                        assert(self.spec_starts_above(k));
                    } else if self.spec_above_within(p, j - 1, n as int) {
                        let k = choose|k: int|
                            j - 1 <= k < n && #[trigger] self.spec_starts_above(k)
                                && self.endpoints@[k].proxy() == p;
                        assert(k == j - 1);
                    } else {
                        if endpoint.is_start() && p == proxy_idx {
                            assert(self.spec_starts_above(j - 1));
                        }
                    }
                }
            }
            j -= 1;
        }
        proof {
            assert forall|p: int| 0 <= p < before.len() implies self.spec_above_within(
                p,
                0,
                n as int,
            ) == self.spec_above_within(p, j as int, n as int) by {
                if self.spec_above_within(p, 0, n as int) {
                    let k = choose|k: int|
                        0 <= k < n && #[trigger] self.spec_starts_above(k)
                            && self.endpoints@[k].proxy() == p;
                    if k < j {
                        assert(self.endpoints@[j - 1].value.raw > self.max_bound.raw);
                    }
                }
                if self.spec_above_within(p, j as int, n as int) {
                    let k = choose|k: int|
                        j <= k < n && #[trigger] self.spec_starts_above(k)
                            && self.endpoints@[k].proxy() == p;
                    assert(self.spec_starts_above(k));
                }
            }
            assert(bit_values(*existing_proxies) =~= self.spec_delete_out_of_bounds(before));
        }
        deleted
    }

    /// Drops the endpoints of the proxies that no longer exist; the others,
    /// and the sentinels, stay in their order.
    pub fn delete_out_of_bounds_endpoints(&mut self, existing_proxies: &BitVec)
        requires
            old(self).spec_endpoints_in_range(bit_values(*existing_proxies).len()),
        ensures
            final(self).endpoints@ == old(self).endpoints@.filter(
                spec_survives(bit_values(*existing_proxies)),
            ),
            final(self).min_bound == old(self).min_bound,
            final(self).max_bound == old(self).max_bound,
            final(self).new_endpoints == old(self).new_endpoints,
            old(self).wf() ==> final(self).wf(),
    {
        let ghost before = self.endpoints@;
        let ghost keep = spec_survives(bit_values(*existing_proxies));
        let n = self.endpoints.len();
        let mut kept: usize = 0;
        let mut next: usize = 0;
        proof {
            reveal(Seq::filter);
            assert(before.take(0).filter(keep) =~= self.endpoints@.take(0));
        }
        while next < n
            invariant
                kept <= next <= n == before.len(),
                self.endpoints@.len() == n,
                self.endpoints@.take(kept as int) == before.take(next as int).filter(keep),
                forall|i: int| next <= i < n ==> self.endpoints@[i] == before[i],
                keep == spec_survives(bit_values(*existing_proxies)),
                forall|i: int|
                    0 <= i < n && !(#[trigger] before[i]).is_sentinel() ==> before[i].proxy()
                        < bit_values(*existing_proxies).len(),
                self.min_bound == old(self).min_bound,
                self.max_bound == old(self).max_bound,
                self.new_endpoints == old(self).new_endpoints,
            decreases n - next,
        {
            let endpoint = self.endpoints[next];
            let ghost front = self.endpoints@.take(kept as int);
            proof {
                reveal(Seq::filter);
                assert(before.take(next + 1).drop_last() =~= before.take(next as int));
                assert(before.take(next + 1).last() == endpoint);
            }
            if endpoint.is_sentinel() || bit_at(existing_proxies, endpoint.proxy() as usize) {
                self.endpoints[kept] = endpoint;
                kept += 1;
                assert(self.endpoints@.take(kept as int) =~= front.push(endpoint));
            } else {
                assert(self.endpoints@.take(kept as int) =~= front);
            }
            next += 1;
        }
        self.endpoints.truncate(kept);
        proof {
            assert(before.take(n as int) =~= before);
            assert(self.endpoints@ =~= before.filter(keep));
            if old(self).wf() {
                lemma_filter_keeps_order(before, keep);
            }
        }
    }

    /// Tests whether the bit vector has a bit for every proxy that
    /// [`SAPAxis::delete_out_of_bounds_proxies`] looks up.
    pub fn prunable_in_range(&self, existing_proxies: &BitVec) -> (ok: bool)
        ensures
            ok == self.spec_prunable_in_range(bit_values(*existing_proxies).len()),
    {
        let len = bit_count(existing_proxies);
        let n = self.endpoints.len();
        let mut i: usize = 0;
        while i < n && self.endpoints[i].value.raw < self.min_bound.raw
            invariant
                i <= n == self.endpoints@.len(),
                i > 0 ==> self.spec_below_window(i - 1),
                len == bit_values(*existing_proxies).len(),
                forall|k: int|
                    0 <= k < i && #[trigger] self.spec_ends_below(k) ==> self.endpoints@[k].proxy()
                        < len,
            decreases n - i,
        {
            let endpoint = self.endpoints[i];
            assert(self.spec_below_window(i as int));
            if endpoint.is_end() && endpoint.proxy() as usize >= len {
                assert(self.spec_ends_below(i as int));
                return false;
            }
            i += 1;
        }
        proof {
            assert forall|k: int|
                0 <= k < n && #[trigger] self.spec_ends_below(k) implies self.endpoints@[k].proxy()
                < len by {
                if k >= i {
                    assert(self.endpoints@[i as int].value.raw < self.min_bound.raw);
                }
            }
        }
        let mut j: usize = n;
        while j > 0 && self.endpoints[j - 1].value.raw > self.max_bound.raw
            invariant
                j <= n == self.endpoints@.len(),
                self.spec_above_window(j as int),
                len == bit_values(*existing_proxies).len(),
                forall|k: int|
                    0 <= k < n && #[trigger] self.spec_ends_below(k) ==> self.endpoints@[k].proxy()
                        < len,
                forall|k: int|
                    j <= k < n && #[trigger] self.spec_starts_above(k) ==> self.endpoints@[k].proxy()
                        < len,
            decreases j,
        {
            let endpoint = self.endpoints[j - 1];
            assert(self.spec_above_window(j - 1));
            if endpoint.is_start() && endpoint.proxy() as usize >= len {
                assert(self.spec_starts_above(j - 1));
                return false;
            }
            j -= 1;
        }
        proof {
            assert forall|k: int|
                0 <= k < n && #[trigger] self.spec_starts_above(k) implies self.endpoints@[k].proxy()
                < len by {
                if k < j {
                    assert(self.endpoints@[j - 1].value.raw > self.max_bound.raw);
                }
            }
        }
        true
    }

    /// Tests whether the bit vector has a bit for the proxy of every endpoint
    /// but the sentinels.
    pub fn endpoints_in_range(&self, existing_proxies: &BitVec) -> (ok: bool)
        ensures
            ok == self.spec_endpoints_in_range(bit_values(*existing_proxies).len()),
    {
        let len = bit_count(existing_proxies);
        let n = self.endpoints.len();
        let mut i: usize = 0;
        while i < n
            invariant
                i <= n == self.endpoints@.len(),
                len == bit_values(*existing_proxies).len(),
                forall|k: int|
                    0 <= k < i && !(#[trigger] self.endpoints@[k]).is_sentinel()
                        ==> self.endpoints@[k].proxy() < len,
            decreases n - i,
        {
            let endpoint = self.endpoints[i];
            if !endpoint.is_sentinel() && endpoint.proxy() as usize >= len {
                return false;
            }
            i += 1;
        }
        true
    }

    /// Like [`SAPAxis::delete_out_of_bounds_proxies`], for any bit vector:
    /// where the vector lacks the bit of a proxy to look up, nothing is
    /// changed and the result is `None`.
    pub fn try_delete_out_of_bounds_proxies(&self, existing_proxies: &mut BitVec) -> (deleted:
        Option<usize>)
        ensures
            deleted is Some <==> self.spec_prunable_in_range(
                bit_values(*old(existing_proxies)).len(),
            ),
            match deleted {
                Some(count) => bit_values(*final(existing_proxies))
                    == self.spec_delete_out_of_bounds(bit_values(*old(existing_proxies))) && count
                    == spec_count_set(bit_values(*old(existing_proxies))) - spec_count_set(
                    bit_values(*final(existing_proxies)),
                ),
                None => *final(existing_proxies) == *old(existing_proxies),
            },
    {
        if self.prunable_in_range(existing_proxies) {
            Some(self.delete_out_of_bounds_proxies(existing_proxies))
        } else {
            None
        }
    }

    /// Like [`SAPAxis::delete_out_of_bounds_endpoints`], for any bit vector:
    /// where the vector lacks the bit of the proxy of an endpoint, nothing is
    /// changed and the result is `false`.
    pub fn try_delete_out_of_bounds_endpoints(&mut self, existing_proxies: &BitVec) -> (done: bool)
        ensures
            done == old(self).spec_endpoints_in_range(bit_values(*existing_proxies).len()),
            done ==> final(self).endpoints@ == old(self).endpoints@.filter(
                spec_survives(bit_values(*existing_proxies)),
            ),
            done ==> final(self).min_bound == old(self).min_bound && final(self).max_bound == old(self).max_bound && final(self).new_endpoints == old(self).new_endpoints,
            done && old(self).wf() ==> final(self).wf(),
            !done ==> *final(self) == *old(self),
    {
        if self.endpoints_in_range(existing_proxies) {
            self.delete_out_of_bounds_endpoints(existing_proxies);
            true
        } else {
            false
        }
    }

    /// Puts `endpoint` in its place among the first `i` endpoints, which are
    /// sorted: the greater ones move up by one, into the slot at index `i`,
    /// and each move that changes whether two intervals overlap is reported.
    fn sift_down(
        &mut self,
        i: usize,
        endpoint: SAPEndpoint,
        proxies: &BroadPhaseProxies,
        reporting: &mut HashMap<(u32, u32), bool>,
    )
        requires
            1 <= i < old(self).endpoints@.len(),
            spec_sorted(old(self).endpoints@.take(i as int)),
            old(self).endpoints@[0].value.raw == i64::MIN,
            endpoint.proxy() < proxies@.len(),
            forall|k: int| 0 < k < i ==> (#[trigger] old(self).endpoints@[k]).proxy() < proxies@.len(),
        ensures
            final(self).endpoints@ == spec_merge(old(self).endpoints@.take(i as int), seq![endpoint])
                + old(self).endpoints@.skip(i + 1),
            final(self).endpoints@[0] == old(self).endpoints@[0],
            forall|k: int| 0 < k <= i ==> (#[trigger] final(self).endpoints@[k]).proxy() < proxies@.len(),
            final(self).min_bound == old(self).min_bound,
            final(self).max_bound == old(self).max_bound,
            final(self).new_endpoints == old(self).new_endpoints,
            final(reporting)@ == spec_reports_written(
                old(reporting)@,
                proxies@,
                |pair: (u32, u32)|
                    spec_passing_reports(
                        old(self).endpoints@.take(i as int),
                        endpoint,
                        proxies@,
                        pair,
                    ),
            ),
    {
        let ghost before = self.endpoints@;
        let ghost front = self.endpoints@.take(i as int);
        let ghost base = reporting@;
        let aabb_i = proxies.get(endpoint.proxy() as usize).aabb;
        let mut j: usize = i;
        while endpoint.value.raw < self.endpoints[j - 1].value.raw
            invariant
                1 <= j <= i < before.len(),
                self.endpoints@.len() == before.len(),
                front == before.take(i as int),
                before[0].value.raw == i64::MIN,
                forall|k: int| 0 <= k < j ==> self.endpoints@[k] == before[k],
                forall|k: int| j < k <= i ==> self.endpoints@[k] == before[k - 1],
                forall|k: int| i < k < before.len() ==> self.endpoints@[k] == before[k],
                forall|k: int| j <= k < i ==> (#[trigger] before[k]).value.raw > endpoint.value.raw,
                forall|k: int| 0 < k < i ==> (#[trigger] before[k]).proxy() < proxies@.len(),
                endpoint.proxy() < proxies@.len(),
                aabb_i == proxies@[endpoint.proxy() as int].aabb,
                self.min_bound == old(self).min_bound,
                self.max_bound == old(self).max_bound,
                self.new_endpoints == old(self).new_endpoints,
                reporting@ == spec_reports_written(
                    base,
                    proxies@,
                    |pair: (u32, u32)|
                        spec_passing_reports(front.skip(j as int), endpoint, proxies@, pair),
                ),
            decreases j,
        {
            let endpoint_j = self.endpoints[j - 1];
            assert(endpoint_j == before[j - 1]);
            assert(j - 1 > 0);
            self.endpoints[j] = endpoint_j;
            let ghost earlier = reporting@;
            let ghost pair = spec_sort2(endpoint.proxy(), endpoint_j.proxy());
            let ghost written = spec_swap_reports(endpoint, endpoint_j, proxies@);
            if endpoint.is_start() {
                if endpoint_j.is_end() {
                    if aabb_i.intersects(&proxies.get(endpoint_j.proxy() as usize).aabb) {
                        let pair = sort2(endpoint.proxy(), endpoint_j.proxy());
                        report_pair(reporting, pair, true);
                    }
                }
            } else {
                if endpoint_j.is_start() {
                    if !aabb_i.intersects(&proxies.get(endpoint_j.proxy() as usize).aabb) {
                        let pair = sort2(endpoint.proxy(), endpoint_j.proxy());
                        report_pair(reporting, pair, false);
                    }
                }
            }
            proof {
                let shorter = front.skip(j as int);
                let longer = front.skip(j - 1);
                assert(longer[0] == endpoint_j);
                assert(forall|k: int| 0 <= k < shorter.len() ==> shorter[k] == longer[k + 1]);
                assert(reporting@ == if written {
                    earlier.insert(pair, spec_pair_intersects(proxies@, pair))
                } else {
                    earlier
                });
                assert forall|key: (u32, u32)|
                    spec_passing_reports(longer, endpoint, proxies@, key) == (
                    spec_passing_reports(shorter, endpoint, proxies@, key) || (written && key
                        == pair)) by {
                    if spec_passing_reports(shorter, endpoint, proxies@, key) {
                        let k = choose|k: int|
                            0 <= k < shorter.len() && (#[trigger] shorter[k]).value.raw
                                > endpoint.value.raw && spec_swap_reports(
                                endpoint,
                                shorter[k],
                                proxies@,
                            ) && key == spec_sort2(endpoint.proxy(), shorter[k].proxy());
                        assert(longer[k + 1] == shorter[k]);
                    }
                    if spec_passing_reports(longer, endpoint, proxies@, key) {
                        let k = choose|k: int|
                            0 <= k < longer.len() && (#[trigger] longer[k]).value.raw
                                > endpoint.value.raw && spec_swap_reports(
                                endpoint,
                                longer[k],
                                proxies@,
                            ) && key == spec_sort2(endpoint.proxy(), longer[k].proxy());
                        if k > 0 {
                            assert(shorter[k - 1] == longer[k]);
                        }
                    }
                    if written && key == pair {
                        assert(longer[0].value.raw > endpoint.value.raw);
                    }
                }
                assert(reporting@ =~= spec_reports_written(
                    base,
                    proxies@,
                    |pair: (u32, u32)| spec_passing_reports(longer, endpoint, proxies@, pair),
                ));
            }
            j -= 1;
        }
        self.endpoints[j] = endpoint;
        proof {
            assert forall|k: int| 0 < k <= i implies (#[trigger] self.endpoints@[k]).proxy()
                < proxies@.len() by {
                if k < j {
                    assert(before[k].proxy() < proxies@.len());
                } else if k > j {
                    assert(before[k - 1].proxy() < proxies@.len());
                }
            }
            lemma_merge_single(front, endpoint, j as int);
            assert(self.endpoints@ =~= front.take(j as int).push(endpoint) + front.skip(j as int)
                + before.skip(i + 1));
            let tail = front.skip(j as int);
            assert forall|key: (u32, u32)|
                spec_passing_reports(front, endpoint, proxies@, key) == spec_passing_reports(
                    tail,
                    endpoint,
                    proxies@,
                    key,
                ) by {
                if spec_passing_reports(tail, endpoint, proxies@, key) {
                    let k = choose|k: int|
                        0 <= k < tail.len() && (#[trigger] tail[k]).value.raw > endpoint.value.raw
                            && spec_swap_reports(endpoint, tail[k], proxies@) && key == spec_sort2(
                            endpoint.proxy(),
                            tail[k].proxy(),
                        );
                    assert(front[k + j] == tail[k]);
                }
                if spec_passing_reports(front, endpoint, proxies@, key) {
                    let k = choose|k: int|
                        0 <= k < front.len() && (#[trigger] front[k]).value.raw
                            > endpoint.value.raw && spec_swap_reports(endpoint, front[k], proxies@)
                            && key == spec_sort2(endpoint.proxy(), front[k].proxy());
                    if k < j {
                        assert(front[k].value.raw <= front[j - 1].value.raw);
                    } else {
                        assert(tail[k - j] == front[k]);
                    }
                }
            }
            assert(reporting@ =~= spec_reports_written(
                base,
                proxies@,
                |pair: (u32, u32)| spec_passing_reports(front, endpoint, proxies@, pair),
            ));
        }
    }

    /// Takes the value of every endpoint anew from the box of its proxy and
    /// sorts the endpoints again, each in turn moved down to its place.
    ///
    /// Where a start endpoint moves below an end endpoint and the boxes of
    /// their proxies intersect, the pair is reported as overlapping; where an
    /// end endpoint moves below a start endpoint and the boxes do not
    /// intersect, the pair is reported as no longer overlapping.
    pub fn update_endpoints(
        &mut self,
        dim: usize,
        proxies: &BroadPhaseProxies,
        reporting: &mut HashMap<(u32, u32), bool>,
    )
        requires
            old(self).wf(),
            dim < DIM,
            old(self).spec_proxies_known(proxies@),
        ensures
            final(self).wf(),
            final(self).spec_proxies_known(proxies@),
            final(self).endpoints@ == spec_insertion_sort(
                spec_refreshed(old(self).endpoints@, dim as int, proxies@).drop_last(),
            ).push(SAPEndpoint::end_sentinel()),
            final(self).min_bound == old(self).min_bound,
            final(self).max_bound == old(self).max_bound,
            final(self).new_endpoints == old(self).new_endpoints,
            final(reporting)@ == spec_reports_written(
                old(reporting)@,
                proxies@,
                |pair: (u32, u32)|
                    spec_inversion_reports(
                        spec_refreshed(old(self).endpoints@, dim as int, proxies@),
                        proxies@,
                        pair,
                        old(self).endpoints@.len() - 1,
                    ),
            ),
    {
        let ghost before = self.endpoints@;
        let ghost base = reporting@;
        let ghost r = spec_refreshed(before, dim as int, proxies@);
        let n = self.endpoints.len();
        let last_endpoint = n - NUM_SENTINELS;
        let mut i: usize = NUM_SENTINELS;
        proof {
            let none = Seq::<SAPEndpoint>::empty();
            assert(r.take(1).drop_last() =~= none);
            lemma_merge_single(none, r[0], 0);
            assert(r.take(1).last() == r[0]);
            assert(spec_insertion_sort(none) == none);
            assert(none.take(0).push(r[0]) + none.skip(0) =~= seq![r[0]]);
            assert(spec_insertion_sort(r.take(1)) == spec_merge(none, seq![r[0]]));
            assert(self.endpoints@.take(1) =~= seq![r[0]]);
            assert(reporting@ =~= spec_reports_written(
                base,
                proxies@,
                |pair: (u32, u32)| spec_inversion_reports(r, proxies@, pair, 1),
            ));
        }
        while i < last_endpoint
            invariant
                1 <= i <= last_endpoint == n - 1,
                n == before.len() == self.endpoints@.len(),
                dim < DIM,
                r == spec_refreshed(before, dim as int, proxies@),
                before[0] == SAPEndpoint::start_sentinel(),
                forall|k: int| 0 < k < n - 1 ==> (#[trigger] before[k]).proxy() < proxies@.len(),
                self.endpoints@.take(i as int) == spec_insertion_sort(r.take(i as int)),
                forall|k: int| i <= k < n ==> self.endpoints@[k] == before[k],
                self.endpoints@[0] == before[0],
                forall|k: int| 0 < k < i ==> (#[trigger] self.endpoints@[k]).proxy() < proxies@.len(),
                self.min_bound == old(self).min_bound,
                self.max_bound == old(self).max_bound,
                self.new_endpoints == old(self).new_endpoints,
                reporting@ == spec_reports_written(
                    base,
                    proxies@,
                    |pair: (u32, u32)| spec_inversion_reports(r, proxies@, pair, i as int),
                ),
            decreases last_endpoint - i,
        {
            let mut endpoint_i = self.endpoints[i];
            assert(endpoint_i == before[i as int]);
            let aabb_i = proxies.get(endpoint_i.proxy() as usize).aabb;
            if endpoint_i.is_start() {
                endpoint_i.value = aabb_i.mins.coord(dim);
            } else {
                endpoint_i.value = aabb_i.maxs.coord(dim);
            }
            assert(endpoint_i == r[i as int]);
            let ghost front = self.endpoints@.take(i as int);
            let ghost earlier = reporting@;
            proof {
                lemma_insertion_sort_sorts(r.take(i as int));
            }
            self.sift_down(i, endpoint_i, proxies, reporting);
            proof {
                assert(r.take(i + 1).drop_last() =~= r.take(i as int));
                assert(r.take(i + 1).last() == r[i as int]);
                lemma_merge_permutes(front, seq![endpoint_i]);
                assert(self.endpoints@.take(i + 1) =~= spec_merge(front, seq![endpoint_i]));
                lemma_inversion_reports_step(r, front, proxies@, i as int);
                assert(reporting@ =~= spec_reports_written(
                    base,
                    proxies@,
                    |pair: (u32, u32)| spec_inversion_reports(r, proxies@, pair, i + 1),
                ));
            }
            i += 1;
        }
        proof {
            assert(r.take(n - 1) =~= r.drop_last());
            assert(self.endpoints@ =~= self.endpoints@.take(n - 1).push(SAPEndpoint::end_sentinel()));
            lemma_insertion_sort_sorts(r.drop_last());
            let sorted = spec_insertion_sort(r.drop_last());
            assert forall|a: int, b: int| 0 <= a <= b < n implies self.endpoints@[a].value.raw
                <= self.endpoints@[b].value.raw by {
                if b < n - 1 {
                    assert(sorted[a].value.raw <= sorted[b].value.raw);
                }
            }
        }
    }
}

} // verus!
