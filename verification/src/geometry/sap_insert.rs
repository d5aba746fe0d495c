//! Insertion of a batch of proxies into an axis.

use crate::geometry::endpoint::{sort2, spec_sort2, SAPEndpoint, SENTINEL_PROXY};
use crate::geometry::merge::{
    lemma_merge_permutes, lemma_merge_sorted, lemma_rank, lemma_sort_sorts, sort_endpoints,
    spec_merge, spec_merge_position, spec_sort, spec_sorted,
};
use crate::geometry::pair_map::report_pair;
use crate::geometry::proxy::{BroadPhaseProxies, BroadPhaseProxy};
use crate::geometry::aabb::{lemma_intersects_symmetric, Aabb};
use crate::geometry::sap_axis::{spec_pair_intersects, spec_reports_written, SAPAxis};
use crate::math::{Real, DIM};
use parry3d::utils::hashmap::HashMap;
use vstd::prelude::*;

verus! {

/// Whether both bounds of the box on axis `dim` lie within the window from
/// `min_bound` to `max_bound`.
pub open spec fn spec_within_window(min_bound: Real, max_bound: Real, aabb: Aabb, dim: int) -> bool {
    &&& min_bound.raw <= aabb.mins.spec_coord(dim).raw <= max_bound.raw
    &&& min_bound.raw <= aabb.maxs.spec_coord(dim).raw <= max_bound.raw
}

/// The endpoints of the proxies of a batch on axis `dim`: for each proxy, in
/// the order of the batch, its start and then its end.
pub open spec fn spec_new_endpoints(
    dim: int,
    new_proxies: Seq<usize>,
    proxies: Seq<BroadPhaseProxy>,
) -> Seq<SAPEndpoint> {
    Seq::new(
        2 * new_proxies.len(),
        |k: int|
            {
                let id = new_proxies[k / 2];
                let aabb = proxies[id as int].aabb;
                if k % 2 == 0 {
                    SAPEndpoint::start_endpoint(aabb.mins.spec_coord(dim), id as u32)
                } else {
                    SAPEndpoint::end_endpoint(aabb.maxs.spec_coord(dim), id as u32)
                }
            },
    )
}

/// The sorted endpoints `b` of a batch, each with the index at which the
/// merge with the endpoints `a` holds it.
pub open spec fn spec_placed(a: Seq<SAPEndpoint>, b: Seq<SAPEndpoint>) -> Seq<(SAPEndpoint, usize)> {
    Seq::new(b.len(), |k: int| (b[k], spec_merge_position(a, b, k) as usize))
}

/// Whether the endpoint `second`, found behind the new start endpoint
/// `first`, makes their two proxies an overlapping pair: the proxies differ;
/// `second` is a start below the upper bound of the first proxy, or an end
/// whose proxy begins no later than `first`; and the two boxes intersect.
pub open spec fn spec_candidate(
    first: SAPEndpoint,
    second: SAPEndpoint,
    dim: int,
    proxies: Seq<BroadPhaseProxy>,
) -> bool {
    let box1 = proxies[first.proxy() as int].aabb;
    let box2 = proxies[second.proxy() as int].aabb;
    &&& second.proxy() != first.proxy()
    &&& (second.is_start() && second.value.raw < box1.maxs.spec_coord(dim).raw) || (second.is_end()
        && box2.mins.spec_coord(dim).raw <= first.value.raw)
    &&& box1.intersects(&box2)
}

/// Whether the scan behind `first`, over the endpoints with an index from
/// `from` up to, not including, `to`, reports `pair`.
pub open spec fn spec_scan_reports(
    endpoints: Seq<SAPEndpoint>,
    first: SAPEndpoint,
    from: int,
    to: int,
    dim: int,
    proxies: Seq<BroadPhaseProxy>,
    pair: (u32, u32),
) -> bool {
    exists|j: int|
        from <= j < to && spec_candidate(first, #[trigger] endpoints[j], dim, proxies) && pair
            == spec_sort2(first.proxy(), endpoints[j].proxy())
}

/// Whether the insertion of a batch reports `pair` for one of the first
/// `upto` endpoints of the batch: that endpoint is a start, and the scan of
/// the endpoints behind it, up to the last sentinel, reports the pair.
pub open spec fn spec_insertion_reports(
    endpoints: Seq<SAPEndpoint>,
    placed: Seq<(SAPEndpoint, usize)>,
    upto: int,
    dim: int,
    proxies: Seq<BroadPhaseProxy>,
    pair: (u32, u32),
) -> bool {
    exists|k: int|
        0 <= k < upto && (#[trigger] placed[k]).0.is_start() && spec_scan_reports(
            endpoints,
            placed[k].0,
            placed[k].1 + 1,
            endpoints.len() - 1,
            dim,
            proxies,
            pair,
        )
}

/// Builds the two endpoints of every proxy of a batch.
fn collect_new_endpoints(dim: usize, new_proxies: &[usize], proxies: &BroadPhaseProxies) -> (fresh:
    Vec<SAPEndpoint>)
    requires
        dim < DIM,
        2 * new_proxies@.len() <= usize::MAX,
        forall|i: int|
            0 <= i < new_proxies@.len() ==> (#[trigger] new_proxies@[i]) < proxies@.len()
                && new_proxies@[i] < SENTINEL_PROXY,
    ensures
        fresh@ == spec_new_endpoints(dim as int, new_proxies@, proxies@),
{
    let mut fresh: Vec<SAPEndpoint> = Vec::new();
    let ghost all = spec_new_endpoints(dim as int, new_proxies@, proxies@);
    let mut i: usize = 0;
    while i < new_proxies.len()
        invariant
            i <= new_proxies@.len(),
            dim < DIM,
            all == spec_new_endpoints(dim as int, new_proxies@, proxies@),
            fresh@ == all.take(2 * i),
            forall|i: int|
                0 <= i < new_proxies@.len() ==> (#[trigger] new_proxies@[i]) < proxies@.len()
                    && new_proxies@[i] < SENTINEL_PROXY,
        decreases new_proxies@.len() - i,
    {
        let proxy_id = new_proxies[i];
        let proxy = proxies.get(proxy_id);
        let start_endpoint = SAPEndpoint::start_endpoint(proxy.aabb.mins.coord(dim), proxy_id as u32);
        let end_endpoint = SAPEndpoint::end_endpoint(proxy.aabb.maxs.coord(dim), proxy_id as u32);
        fresh.push(start_endpoint);
        fresh.push(end_endpoint);
        proof {
            assert(all[2 * i] == start_endpoint);
            assert(all[2 * i + 1] == end_endpoint);
            assert(fresh@ =~= all.take(2 * (i + 1)));
        }
        i += 1;
    }
    assert(all.take(2 * i) =~= all);
    fresh
}

impl SAPAxis {
    /// Merges the sorted endpoints of a batch into the endpoints of the axis,
    /// below the last sentinel, and notes in the workspace where each went.
    fn merge_new_endpoints(&mut self, sorted: &Vec<SAPEndpoint>, Ghost(known): Ghost<int>)
        requires
            old(self).wf(),
            spec_sorted(sorted@),
            old(self).endpoints@.len() + sorted@.len() <= usize::MAX,
            forall|k: int| 0 <= k < sorted@.len() ==> (#[trigger] sorted@[k]).proxy() < known,
            forall|k: int|
                0 < k < old(self).endpoints@.len() - 1 ==> (#[trigger] old(self).endpoints@[k]).proxy() < known,
        ensures
            final(self).wf(),
            final(self).endpoints@ == spec_merge(old(self).endpoints@.drop_last(), sorted@).push(
                SAPEndpoint::end_sentinel(),
            ),
            final(self).new_endpoints@ == spec_placed(old(self).endpoints@.drop_last(), sorted@),
            forall|k: int|
                0 <= k < sorted@.len() ==> 0 < #[trigger] spec_merge_position(
                    old(self).endpoints@.drop_last(),
                    sorted@,
                    k,
                ) < final(self).endpoints@.len() - 1 && final(self).endpoints@[spec_merge_position(
                    old(self).endpoints@.drop_last(),
                    sorted@,
                    k,
                )] == sorted@[k],
            forall|k: int|
                0 < k < final(self).endpoints@.len() - 1 ==> (#[trigger] final(self).endpoints@[k]).proxy() < known,
            final(self).min_bound == old(self).min_bound,
            final(self).max_bound == old(self).max_bound,
    {
        let ghost before = self.endpoints@;
        let ghost a = self.endpoints@.drop_last();
        let ghost b = sorted@;
        let n = self.endpoints.len();
        let m = sorted.len();
        self.new_endpoints.clear();
        let mut k: usize = 0;
        while k < m
            invariant
                k <= m == b.len(),
                b == sorted@,
                n == before.len(),
                n + m <= usize::MAX,
                self.endpoints@.len() == n + k,
                self.endpoints@.take(n as int) == before,
                forall|i: int| n <= i < n + k ==> self.endpoints@[i] == SAPEndpoint::end_sentinel(),
                self.new_endpoints@.len() == k,
                forall|i: int| 0 <= i < k ==> (#[trigger] self.new_endpoints@[i]).0 == b[i],
                self.min_bound == old(self).min_bound,
                self.max_bound == old(self).max_bound,
            decreases m - k,
        {
            let ghost grown = self.endpoints@;
            self.new_endpoints.push((sorted[k], 0));
            self.endpoints.push(SAPEndpoint::end_sentinel());
            assert(self.endpoints@.take(n as int) =~= grown.take(n as int));
            k += 1;
        }
        assert(forall|i: int| 0 <= i < n ==> self.endpoints@[i] == self.endpoints@.take(n as int)[i]);
        let total = n + m;
        let mut ai: usize = n - 1;
        let mut bi: usize = m;
        proof {
            assert(a.take(ai as int) =~= a);
            assert(b.take(bi as int) =~= b);
            assert(self.endpoints@.subrange(ai + bi, total - 1) =~= Seq::<SAPEndpoint>::empty());
            assert(spec_merge(a, b) =~= spec_merge(a, b) + self.endpoints@.subrange(
                ai + bi,
                total - 1,
            ));
            assert(self.endpoints@.take(ai as int) =~= a.take(ai as int));
        }
        while bi > 0
            invariant
                1 <= ai <= n - 1 == a.len(),
                bi <= m == b.len(),
                b == sorted@,
                a == before.drop_last(),
                n == before.len(),
                total == n + m <= usize::MAX,
                spec_sorted(a),
                spec_sorted(b),
                a[0] == SAPEndpoint::start_sentinel(),
                self.endpoints@.len() == total,
                self.endpoints@[total - 1] == SAPEndpoint::end_sentinel(),
                self.endpoints@.take(ai as int) == a.take(ai as int),
                spec_merge(a, b) == spec_merge(a.take(ai as int), b.take(bi as int))
                    + self.endpoints@.subrange(ai + bi, total - 1),
                bi > 0 ==> forall|x: int| ai <= x < a.len() ==> (#[trigger] a[x]).value.raw > b[bi
                    - 1].value.raw,
                self.new_endpoints@.len() == m,
                forall|i: int| 0 <= i < m ==> (#[trigger] self.new_endpoints@[i]).0 == b[i],
                forall|i: int|
                    bi <= i < m ==> (#[trigger] self.new_endpoints@[i]).1 == spec_merge_position(
                        a,
                        b,
                        i,
                    ),
                forall|i: int|
                    bi <= i < m ==> 0 < #[trigger] spec_merge_position(a, b, i) < total - 1
                        && spec_merge(a, b)[spec_merge_position(a, b, i)] == b[i],
                forall|i: int| 0 <= i < m ==> (#[trigger] b[i]).proxy() < known,
                forall|i: int| 0 < i < a.len() ==> (#[trigger] a[i]).proxy() < known,
                forall|i: int|
                    ai + bi <= i < total - 1 ==> (#[trigger] self.endpoints@[i]).proxy() < known,
                self.min_bound == old(self).min_bound,
                self.max_bound == old(self).max_bound,
            decreases ai + bi,
        {
            let ghost current = self.endpoints@;
            let ghost rest = self.endpoints@.subrange(ai + bi, total - 1);
            let ghost front_a = a.take(ai as int);
            let ghost front_b = b.take(bi as int);
            let new_endpoint = sorted[bi - 1];
            let existing_endpoint = self.endpoints[ai - 1];
            proof {
                lemma_merge_permutes(a, b);
                assert(front_b.last() == new_endpoint);
                assert(front_b.drop_last() =~= b.take(bi - 1));
                assert(existing_endpoint == current.take(ai as int)[ai - 1]);
                assert(front_a.last() == existing_endpoint);
                assert(front_a.drop_last() =~= a.take(ai - 1));
            }
            if existing_endpoint.value.raw > new_endpoint.value.raw {
                self.endpoints[ai + bi - 1] = existing_endpoint;
                ai -= 1;
                proof {
                    assert(self.endpoints@.subrange(ai + bi, total - 1) =~= seq![existing_endpoint]
                        + rest);
                    assert(spec_merge(front_a, front_b) + rest =~= spec_merge(
                        a.take(ai as int),
                        front_b,
                    ) + self.endpoints@.subrange(ai + bi, total - 1));
                }
            } else {
                let position = ai + bi - 1;
                self.endpoints[position] = new_endpoint;
                self.new_endpoints[bi - 1] = (new_endpoint, position);
                bi -= 1;
                proof {
                    lemma_rank(a, new_endpoint.value, ai as int);
                    assert(self.endpoints@.subrange(ai + bi, total - 1) =~= seq![new_endpoint]
                        + rest);
                    assert(spec_merge(front_a, front_b) + rest =~= spec_merge(
                        front_a,
                        b.take(bi as int),
                    ) + self.endpoints@.subrange(ai + bi, total - 1));
                    lemma_merge_permutes(front_a, b.take(bi as int));
                    assert(spec_merge(a, b)[position as int] == new_endpoint);
                    if bi > 0 {
                        assert forall|x: int| ai <= x < a.len() implies (#[trigger] a[x]).value.raw
                            > b[bi - 1].value.raw by {
                            assert(b[bi - 1].value.raw <= b[bi as int].value.raw);
                        }
                    }
                }
            }
            proof {
                assert(self.endpoints@.take(ai as int) =~= a.take(ai as int)) by {
                    assert forall|i: int| 0 <= i < ai implies self.endpoints@[i] == a[i] by {
                        assert(current[i] == current.take(front_a.len() as int)[i]);
                    }
                }
            }
        }
        proof {
            lemma_merge_permutes(a, b);
            lemma_merge_sorted(a, b);
            let merged = spec_merge(a, b);
            assert(merged =~= self.endpoints@.take(ai as int) + self.endpoints@.subrange(
                ai as int,
                total - 1,
            ));
            assert(self.endpoints@ =~= merged.push(SAPEndpoint::end_sentinel()));
            assert(self.new_endpoints@ =~= spec_placed(a, b));
            assert(merged[0] == a[0]);
            assert forall|i: int, j: int| 0 <= i <= j < total implies self.endpoints@[i].value.raw
                <= self.endpoints@[j].value.raw by {
                if j < total - 1 {
                    assert(merged[i].value.raw <= merged[j].value.raw);
                }
            }
            assert forall|i: int| 0 < i < total - 1 implies (#[trigger] self.endpoints@[i]).proxy()
                < known by {
                if i < ai {
                    assert(self.endpoints@[i] == self.endpoints@.take(ai as int)[i]);
                    assert(a[i].proxy() < known);
                }
            }
        }
    }

    /// Scans the endpoints behind the new start endpoint `endpoint`, which
    /// stands at index `endpoint_id`, up to the last sentinel, and reports
    /// each pair that it finds overlapping.
    fn scan_behind(
        &self,
        dim: usize,
        proxies: &BroadPhaseProxies,
        reporting: &mut HashMap<(u32, u32), bool>,
        endpoint: SAPEndpoint,
        endpoint_id: usize,
    )
        requires
            dim < DIM,
            self.spec_proxies_known(proxies@),
            0 < endpoint_id < self.endpoints@.len() - 1,
            endpoint.proxy() < proxies@.len(),
        ensures
            final(reporting)@ == spec_reports_written(
                old(reporting)@,
                proxies@,
                |pair: (u32, u32)|
                    spec_scan_reports(
                        self.endpoints@,
                        endpoint,
                        endpoint_id + 1,
                        self.endpoints@.len() - 1,
                        dim as int,
                        proxies@,
                        pair,
                    ),
            ),
    {
        let ghost base = reporting@;
        let proxy1 = proxies.get(endpoint.proxy() as usize);
        let min = endpoint.value;
        let max = proxy1.aabb.maxs.coord(dim);
        let last = self.endpoints.len() - 1;
        let mut j: usize = endpoint_id + 1;
        proof {
            assert(reporting@ =~= spec_reports_written(
                base,
                proxies@,
                |pair: (u32, u32)|
                    spec_scan_reports(
                        self.endpoints@,
                        endpoint,
                        endpoint_id + 1,
                        j as int,
                        dim as int,
                        proxies@,
                        pair,
                    ),
            ));
        }
        while j < last
            invariant
                endpoint_id < j <= last == self.endpoints@.len() - 1,
                0 < endpoint_id,
                dim < DIM,
                self.spec_proxies_known(proxies@),
                endpoint.proxy() < proxies@.len(),
                *proxy1 == proxies@[endpoint.proxy() as int],
                min == endpoint.value,
                max == proxy1.aabb.maxs.spec_coord(dim as int),
                reporting@ == spec_reports_written(
                    base,
                    proxies@,
                    |pair: (u32, u32)|
                        spec_scan_reports(
                            self.endpoints@,
                            endpoint,
                            endpoint_id + 1,
                            j as int,
                            dim as int,
                            proxies@,
                            pair,
                        ),
                ),
            decreases last - j,
        {
            let endpoint2 = self.endpoints[j];
            let ghost earlier = reporting@;
            let ghost found = spec_candidate(endpoint, endpoint2, dim as int, proxies@);
            let ghost found_pair = spec_sort2(endpoint.proxy(), endpoint2.proxy());
            if endpoint2.proxy() != endpoint.proxy() {
                let proxy2 = proxies.get(endpoint2.proxy() as usize);
                if (endpoint2.is_start() && endpoint2.value.raw < max.raw) || (endpoint2.is_end()
                    && proxy2.aabb.mins.coord(dim).raw <= min.raw) {
                    if proxy1.aabb.intersects(&proxy2.aabb) {
                        let pair = sort2(endpoint.proxy(), endpoint2.proxy());
                        report_pair(reporting, pair, true);
                    }
                }
            }
            proof {
                lemma_intersects_symmetric(
                    proxies@[endpoint.proxy() as int].aabb,
                    proxies@[endpoint2.proxy() as int].aabb,
                );
                assert(reporting@ == if found {
                    earlier.insert(found_pair, spec_pair_intersects(proxies@, found_pair))
                } else {
                    earlier
                });
                let from = endpoint_id + 1;
                let next = j + 1;
                assert forall|key: (u32, u32)|
                    #![trigger spec_scan_reports(self.endpoints@, endpoint, from, next, dim as int, proxies@, key)]
                    spec_scan_reports(
                        self.endpoints@,
                        endpoint,
                        from,
                        next,
                        dim as int,
                        proxies@,
                        key,
                    ) == (spec_scan_reports(
                        self.endpoints@,
                        endpoint,
                        from,
                        j as int,
                        dim as int,
                        proxies@,
                        key,
                    ) || (found && key == found_pair)) by {
                    if spec_scan_reports(
                        self.endpoints@,
                        endpoint,
                        from,
                        j as int,
                        dim as int,
                        proxies@,
                        key,
                    ) {
                        let x = choose|x: int|
                            from <= x < j && spec_candidate(
                                endpoint,
                                #[trigger] self.endpoints@[x],
                                dim as int,
                                proxies@,
                            ) && key == spec_sort2(endpoint.proxy(), self.endpoints@[x].proxy());
                        assert(spec_candidate(endpoint, self.endpoints@[x], dim as int, proxies@));
                    }
                    if found && key == found_pair {
                        assert(spec_candidate(
                            endpoint,
                            self.endpoints@[j as int],
                            dim as int,
                            proxies@,
                        ));
                    }
                }
                assert(reporting@ =~= spec_reports_written(
                    base,
                    proxies@,
                    |pair: (u32, u32)|
                        spec_scan_reports(
                            self.endpoints@,
                            endpoint,
                            from,
                            next,
                            dim as int,
                            proxies@,
                            pair,
                        ),
                ));
            }
            j += 1;
        }
    }

    /// Runs the scan behind every start endpoint of the batch that the
    /// workspace holds.
    fn report_new_pairs(
        &self,
        dim: usize,
        proxies: &BroadPhaseProxies,
        reporting: &mut HashMap<(u32, u32), bool>,
    )
        requires
            dim < DIM,
            self.spec_proxies_known(proxies@),
            forall|k: int|
                0 <= k < self.new_endpoints@.len() ==> 0 < (#[trigger] self.new_endpoints@[k]).1
                    < self.endpoints@.len() - 1 && self.endpoints@[self.new_endpoints@[k].1 as int]
                    == self.new_endpoints@[k].0,
        ensures
            final(reporting)@ == spec_reports_written(
                old(reporting)@,
                proxies@,
                |pair: (u32, u32)|
                    spec_insertion_reports(
                        self.endpoints@,
                        self.new_endpoints@,
                        self.new_endpoints@.len() as int,
                        dim as int,
                        proxies@,
                        pair,
                    ),
            ),
    {
        let ghost base = reporting@;
        let ghost placed = self.new_endpoints@;
        let m = self.new_endpoints.len();
        let mut k: usize = 0;
        proof {
            assert(reporting@ =~= spec_reports_written(
                base,
                proxies@,
                |pair: (u32, u32)|
                    spec_insertion_reports(
                        self.endpoints@,
                        placed,
                        k as int,
                        dim as int,
                        proxies@,
                        pair,
                    ),
            ));
        }
        while k < m
            invariant
                k <= m == placed.len(),
                placed == self.new_endpoints@,
                dim < DIM,
                self.spec_proxies_known(proxies@),
                forall|k: int|
                    0 <= k < placed.len() ==> 0 < (#[trigger] placed[k]).1 < self.endpoints@.len()
                        - 1 && self.endpoints@[placed[k].1 as int] == placed[k].0,
                reporting@ == spec_reports_written(
                    base,
                    proxies@,
                    |pair: (u32, u32)|
                        spec_insertion_reports(
                            self.endpoints@,
                            placed,
                            k as int,
                            dim as int,
                            proxies@,
                            pair,
                        ),
                ),
            decreases m - k,
        {
            let (endpoint, endpoint_id) = self.new_endpoints[k];
            assert((endpoint, endpoint_id) == placed[k as int]);
            assert(self.endpoints@[endpoint_id as int].proxy() < proxies@.len());
            if endpoint.is_start() {
                self.scan_behind(dim, proxies, reporting, endpoint, endpoint_id);
            }
            proof {
                let next = k + 1;
                let from = endpoint_id + 1;
                let to = self.endpoints@.len() - 1;
                assert forall|key: (u32, u32)|
                    #![trigger spec_insertion_reports(self.endpoints@, placed, next, dim as int, proxies@, key)]
                    spec_insertion_reports(
                        self.endpoints@,
                        placed,
                        next,
                        dim as int,
                        proxies@,
                        key,
                    ) == (spec_insertion_reports(
                        self.endpoints@,
                        placed,
                        k as int,
                        dim as int,
                        proxies@,
                        key,
                    ) || (endpoint.is_start() && spec_scan_reports(
                        self.endpoints@,
                        endpoint,
                        from,
                        to,
                        dim as int,
                        proxies@,
                        key,
                    ))) by {
                    if spec_insertion_reports(
                        self.endpoints@,
                        placed,
                        k as int,
                        dim as int,
                        proxies@,
                        key,
                    ) {
                        let x = choose|x: int|
                            0 <= x < k && (#[trigger] placed[x]).0.is_start() && spec_scan_reports(
                                self.endpoints@,
                                placed[x].0,
                                placed[x].1 + 1,
                                self.endpoints@.len() - 1,
                                dim as int,
                                proxies@,
                                key,
                            );
                        assert(placed[x].0.is_start());
                    }
                    if endpoint.is_start() && spec_scan_reports(
                        self.endpoints@,
                        endpoint,
                        from,
                        to,
                        dim as int,
                        proxies@,
                        key,
                    ) {
                        assert(placed[k as int].0.is_start());
                    }
                }
                assert(reporting@ =~= spec_reports_written(
                    base,
                    proxies@,
                    |pair: (u32, u32)|
                        spec_insertion_reports(
                            self.endpoints@,
                            placed,
                            next,
                            dim as int,
                            proxies@,
                            pair,
                        ),
                ));
            }
            k += 1;
        }
    }

    /// Inserts the two endpoints of every proxy of a batch.
    ///
    /// Both bounds of every new proxy must lie within the window of the
    /// axis. The new endpoints are sorted and merged into the endpoints of the
    /// axis, each behind the endpoints that are not greater. Where a
    /// reporting map is given, the endpoints behind every new start endpoint
    /// are scanned, and each proxy found there whose box intersects the box
    /// of the new proxy is reported with it as an overlapping pair.
    pub fn batch_insert(
        &mut self,
        dim: usize,
        new_proxies: &[usize],
        proxies: &BroadPhaseProxies,
        reporting: Option<&mut HashMap<(u32, u32), bool>>,
    )
        requires
            old(self).wf(),
            dim < DIM,
            old(self).endpoints@.len() + 2 * new_proxies@.len() <= usize::MAX,
            forall|i: int|
                0 <= i < new_proxies@.len() ==> (#[trigger] new_proxies@[i]) < proxies@.len()
                    && new_proxies@[i] < SENTINEL_PROXY,
            forall|i: int|
                0 <= i < new_proxies@.len() ==> spec_within_window(
                    old(self).min_bound,
                    old(self).max_bound,
                    proxies@[(#[trigger] new_proxies@[i]) as int].aabb,
                    dim as int,
                ),
            reporting is Some ==> old(self).spec_proxies_known(proxies@),
        ensures
            final(self).wf(),
            final(self).min_bound == old(self).min_bound,
            final(self).max_bound == old(self).max_bound,
            final(self).endpoints@ == spec_merge(
                old(self).endpoints@.drop_last(),
                spec_sort(spec_new_endpoints(dim as int, new_proxies@, proxies@)),
            ).push(SAPEndpoint::end_sentinel()),
            old(self).spec_proxies_known(proxies@) ==> final(self).spec_proxies_known(proxies@),
            new_proxies@.len() == 0 ==> final(self).new_endpoints == old(self).new_endpoints,
            new_proxies@.len() > 0 && reporting is Some ==> final(self).new_endpoints@.len() == 0,
            new_proxies@.len() > 0 && reporting is None ==> final(self).new_endpoints@ == spec_placed(
                old(self).endpoints@.drop_last(),
                spec_sort(spec_new_endpoints(dim as int, new_proxies@, proxies@)),
            ),
            match reporting {
                Some(map) => final(map)@ == spec_reports_written(
                    map@,
                    proxies@,
                    |pair: (u32, u32)|
                        spec_insertion_reports(
                            final(self).endpoints@,
                            spec_placed(
                                old(self).endpoints@.drop_last(),
                                spec_sort(spec_new_endpoints(dim as int, new_proxies@, proxies@)),
                            ),
                            2 * new_proxies@.len() as int,
                            dim as int,
                            proxies@,
                            pair,
                        ),
                ),
                None => true,
            },
    {
        let ghost a = self.endpoints@.drop_last();
        let ghost fresh_spec = spec_new_endpoints(dim as int, new_proxies@, proxies@);
        if new_proxies.len() == 0 {
            proof {
                assert(fresh_spec =~= Seq::<SAPEndpoint>::empty());
                assert(spec_sort(fresh_spec) == fresh_spec);
                assert(self.endpoints@ =~= a.push(SAPEndpoint::end_sentinel()));
                match reporting {
                    Some(map) => {
                        assert(map@ =~= spec_reports_written(
                            map@,
                            proxies@,
                            |pair: (u32, u32)|
                                spec_insertion_reports(
                                    self.endpoints@,
                                    spec_placed(a, spec_sort(fresh_spec)),
                                    2 * new_proxies@.len() as int,
                                    dim as int,
                                    proxies@,
                                    pair,
                                ),
                        ));
                    },
                    None => {},
                }
            }
            return ;
        }
        let fresh = collect_new_endpoints(dim, new_proxies, proxies);
        let sorted = sort_endpoints(&fresh);
        let ghost known: int = if self.spec_proxies_known(proxies@) {
            proxies@.len() as int
        } else {
            0x1_0000_0000
        };
        proof {
            lemma_sort_sorts(fresh@);
            assert forall|k: int| 0 <= k < sorted@.len() implies (#[trigger] sorted@[k]).proxy()
                < known by {
                assert(sorted@.contains(sorted@[k]));
                let x = choose|x: int| 0 <= x < fresh@.len() && fresh@[x] == sorted@[k];
                assert(fresh@[x].proxy() == new_proxies@[x / 2] as u32);
            }
        }
        self.merge_new_endpoints(&sorted, Ghost(known));
        if let Some(map) = reporting {
            proof {
                assert forall|k: int| 0 <= k < self.new_endpoints@.len() implies 0 < (
                #[trigger] self.new_endpoints@[k]).1 < self.endpoints@.len() - 1
                    && self.endpoints@[self.new_endpoints@[k].1 as int]
                    == self.new_endpoints@[k].0 by {
                    let position = spec_merge_position(a, sorted@, k);
                    lemma_merge_permutes(a, sorted@);
                    assert(0 < position < self.endpoints@.len() - 1);
                    assert(self.new_endpoints@[k] == (sorted@[k], position as usize));
                }
            }
            self.report_new_pairs(dim, proxies, map);
            self.new_endpoints.clear();
        }
    }
}

} // verus!
