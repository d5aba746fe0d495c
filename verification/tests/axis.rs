use bit_vec::BitVec;
use parry3d::utils::hashmap::HashMap;
use rigid_core::geometry::aabb::Aabb;
use rigid_core::geometry::endpoint::{sort2, SAPEndpoint, NUM_SENTINELS, SENTINEL_PROXY};
use rigid_core::geometry::merge::{merge_sorted, sort_endpoints};
use rigid_core::geometry::proxy::{BroadPhaseProxies, BroadPhaseProxy};
use rigid_core::geometry::sap_axis::SAPAxis;
use rigid_core::math::Real;
use rigid_core::vector::Vector;

fn fx(x: f64) -> Real {
    Real::from_raw((x * 4294967296.0).round() as i64)
}

fn cube(lo: f64, hi: f64) -> Aabb {
    Aabb::new(Vector::new(fx(lo), fx(lo), fx(lo)), Vector::new(fx(hi), fx(hi), fx(hi)))
}

fn boxed(mins: [f64; 3], maxs: [f64; 3]) -> Aabb {
    Aabb::new(
        Vector::new(fx(mins[0]), fx(mins[1]), fx(mins[2])),
        Vector::new(fx(maxs[0]), fx(maxs[1]), fx(maxs[2])),
    )
}

fn table(boxes: &[Aabb]) -> BroadPhaseProxies {
    let mut proxies = BroadPhaseProxies::new();
    for aabb in boxes {
        proxies.insert(BroadPhaseProxy { aabb: *aabb });
    }
    proxies
}

fn wide_axis() -> SAPAxis {
    SAPAxis::new(fx(-100.0), fx(100.0))
}

fn is_sorted(axis: &SAPAxis) -> bool {
    axis.endpoints.windows(2).all(|w| w[0].value.raw <= w[1].value.raw)
        && axis.endpoints[0] == SAPEndpoint::start_sentinel()
        && axis.endpoints[axis.endpoints.len() - 1] == SAPEndpoint::end_sentinel()
}

fn start(value: f64, proxy: u32) -> SAPEndpoint {
    SAPEndpoint::start_endpoint(fx(value), proxy)
}

fn end(value: f64, proxy: u32) -> SAPEndpoint {
    SAPEndpoint::end_endpoint(fx(value), proxy)
}

#[test]
fn new_axis_holds_only_the_sentinels() {
    let axis = SAPAxis::new(Real::from_raw(-10), Real::from_raw(10));
    assert_eq!(axis.min_bound.raw, -10);
    assert_eq!(axis.max_bound.raw, 10);
    assert_eq!(axis.endpoints.len(), 2);
    assert_eq!(axis.endpoints[0], SAPEndpoint::start_sentinel());
    assert_eq!(axis.endpoints[1], SAPEndpoint::end_sentinel());
    assert_eq!(axis.endpoints[0].value.raw, i64::MIN);
    assert_eq!(axis.endpoints[1].value.raw, i64::MAX);
    assert!(axis.new_endpoints.is_empty());
}

#[test]
fn new_axis_accepts_an_empty_window() {
    let axis = SAPAxis::new(fx(3.0), fx(3.0));
    assert_eq!(axis.min_bound, axis.max_bound);
    assert_eq!(axis.endpoints.len(), 2);
}

#[test]
fn endpoints_know_their_kind() {
    let s = SAPEndpoint::start_endpoint(fx(1.0), 7);
    let e = SAPEndpoint::end_endpoint(fx(2.0), 7);
    assert!(s.is_start() && !s.is_end() && !s.is_sentinel());
    assert!(e.is_end() && !e.is_start() && !e.is_sentinel());
    assert_eq!(s.proxy(), 7);
    assert_eq!(e.proxy(), 7);
    assert_eq!(s.value, fx(1.0));
    assert!(SAPEndpoint::start_sentinel().is_sentinel());
    assert!(SAPEndpoint::start_sentinel().is_start());
    assert!(SAPEndpoint::end_sentinel().is_sentinel());
    assert!(SAPEndpoint::end_sentinel().is_end());
    assert_eq!(SAPEndpoint::end_sentinel().proxy(), SENTINEL_PROXY);
    assert_eq!(NUM_SENTINELS, 1);
}

#[test]
fn sort2_orders_a_pair() {
    assert_eq!(sort2(3, 1), (1, 3));
    assert_eq!(sort2(1, 3), (1, 3));
    assert_eq!(sort2(2, 2), (2, 2));
}

#[test]
fn boxes_that_touch_intersect() {
    assert!(cube(0.0, 1.0).intersects(&cube(1.0, 2.0)));
    assert!(cube(1.0, 2.0).intersects(&cube(0.0, 1.0)));
    assert!(cube(0.0, 1.0).intersects(&cube(0.5, 2.0)));
    assert!(cube(0.0, 3.0).intersects(&cube(1.0, 2.0)));
}

#[test]
fn boxes_apart_on_one_axis_do_not_intersect() {
    let a = boxed([0.0, 0.0, 0.0], [1.0, 1.0, 1.0]);
    assert!(!a.intersects(&boxed([2.0, 0.0, 0.0], [3.0, 1.0, 1.0])));
    assert!(!a.intersects(&boxed([0.0, 2.0, 0.0], [1.0, 3.0, 1.0])));
    assert!(!a.intersects(&boxed([0.0, 0.0, 2.0], [1.0, 1.0, 3.0])));
    assert!(!a.intersects(&boxed([0.0, 0.0, -3.0], [1.0, 1.0, -2.0])));
}

#[test]
fn sort_endpoints_sorts_and_keeps_equal_values_in_order() {
    let input = vec![
        start(3.0, 0),
        end(1.0, 1),
        start(2.0, 2),
        end(1.0, 3),
        start(1.0, 4),
        end(0.0, 5),
        start(2.0, 6),
    ];
    let sorted = sort_endpoints(&input);
    let expected = vec![
        end(0.0, 5),
        end(1.0, 1),
        end(1.0, 3),
        start(1.0, 4),
        start(2.0, 2),
        start(2.0, 6),
        start(3.0, 0),
    ];
    assert_eq!(sorted, expected);
    assert_eq!(sort_endpoints(&Vec::new()), Vec::new());
    assert_eq!(sort_endpoints(&vec![start(1.0, 0)]), vec![start(1.0, 0)]);
}

#[test]
fn merge_sorted_puts_the_first_sequence_first_on_ties() {
    let a = vec![start(1.0, 0), start(2.0, 1), start(4.0, 2)];
    let b = vec![end(0.0, 3), end(2.0, 4), end(2.0, 5), end(5.0, 6)];
    let merged = merge_sorted(a.clone(), &b);
    let expected = vec![
        end(0.0, 3),
        start(1.0, 0),
        start(2.0, 1),
        end(2.0, 4),
        end(2.0, 5),
        start(4.0, 2),
        end(5.0, 6),
    ];
    assert_eq!(merged, expected);
    assert_eq!(merge_sorted(a.clone(), &Vec::new()), a);
    assert_eq!(merge_sorted(Vec::new(), &b), b);
}

#[test]
fn batch_insert_reports_overlap_and_update_reports_its_end() {
    let mut proxies = table(&[cube(0.0, 1.0), cube(0.5, 2.0)]);
    let mut axis = wide_axis();
    let mut reporting: HashMap<(u32, u32), bool> = HashMap::default();
    axis.batch_insert(0, &[0, 1], &proxies, Some(&mut reporting));
    assert_eq!(reporting.len(), 1);
    assert_eq!(reporting.get(&(0, 1)), Some(&true));
    assert_eq!(
        axis.endpoints,
        vec![
            SAPEndpoint::start_sentinel(),
            start(0.0, 0),
            start(0.5, 1),
            end(1.0, 0),
            end(2.0, 1),
            SAPEndpoint::end_sentinel(),
        ]
    );
    assert!(axis.new_endpoints.is_empty());

    proxies.set_aabb(1, cube(5.0, 6.0));
    axis.update_endpoints(0, &proxies, &mut reporting);
    assert_eq!(reporting.len(), 1);
    assert_eq!(reporting.get(&(0, 1)), Some(&false));
    assert_eq!(
        axis.endpoints,
        vec![
            SAPEndpoint::start_sentinel(),
            start(0.0, 0),
            end(1.0, 0),
            start(5.0, 1),
            end(6.0, 1),
            SAPEndpoint::end_sentinel(),
        ]
    );
}

#[test]
fn batch_insert_of_nothing_changes_nothing() {
    let proxies = table(&[cube(0.0, 1.0)]);
    let mut axis = wide_axis();
    axis.batch_insert(0, &[0], &proxies, None);
    let endpoints = axis.endpoints.clone();
    let workspace = axis.new_endpoints.clone();
    assert_eq!(workspace.len(), 2);
    let mut reporting: HashMap<(u32, u32), bool> = HashMap::default();
    axis.batch_insert(0, &[], &proxies, Some(&mut reporting));
    assert_eq!(axis.endpoints, endpoints);
    assert_eq!(axis.new_endpoints, workspace);
    assert!(reporting.is_empty());
}

#[test]
fn batch_insert_without_reporting_keeps_the_positions() {
    let proxies = table(&[cube(0.0, 1.0), cube(4.0, 6.0), cube(0.5, 5.0)]);
    let mut axis = wide_axis();
    axis.batch_insert(0, &[0, 1], &proxies, None);
    assert_eq!(
        axis.new_endpoints,
        vec![(start(0.0, 0), 1), (end(1.0, 0), 2), (start(4.0, 1), 3), (end(6.0, 1), 4)]
    );
    axis.batch_insert(0, &[2], &proxies, None);
    assert_eq!(axis.new_endpoints, vec![(start(0.5, 2), 2), (end(5.0, 2), 5)]);
    assert_eq!(
        axis.endpoints,
        vec![
            SAPEndpoint::start_sentinel(),
            start(0.0, 0),
            start(0.5, 2),
            end(1.0, 0),
            start(4.0, 1),
            end(5.0, 2),
            end(6.0, 1),
            SAPEndpoint::end_sentinel(),
        ]
    );
}

#[test]
fn batch_insert_puts_new_endpoints_behind_equal_old_ones() {
    let proxies = table(&[cube(1.0, 2.0), cube(1.0, 2.0)]);
    let mut axis = wide_axis();
    axis.batch_insert(1, &[0], &proxies, None);
    axis.batch_insert(1, &[1], &proxies, None);
    assert_eq!(
        axis.endpoints,
        vec![
            SAPEndpoint::start_sentinel(),
            start(1.0, 0),
            start(1.0, 1),
            end(2.0, 0),
            end(2.0, 1),
            SAPEndpoint::end_sentinel(),
        ]
    );
}

#[test]
fn batch_insert_reports_pairs_with_proxies_already_on_the_axis() {
    let proxies = table(&[cube(0.0, 4.0), cube(1.0, 2.0), cube(3.0, 5.0), cube(10.0, 11.0)]);
    let mut axis = wide_axis();
    let mut reporting: HashMap<(u32, u32), bool> = HashMap::default();
    axis.batch_insert(2, &[0, 3], &proxies, Some(&mut reporting));
    assert!(reporting.is_empty());
    axis.batch_insert(2, &[1, 2], &proxies, Some(&mut reporting));
    assert_eq!(reporting.len(), 2);
    assert_eq!(reporting.get(&(0, 1)), Some(&true));
    assert_eq!(reporting.get(&(0, 2)), Some(&true));
    assert!(is_sorted(&axis));
}

#[test]
fn batch_insert_needs_the_exact_test_on_all_axes() {
    let proxies = table(&[
        boxed([0.0, 0.0, 0.0], [2.0, 1.0, 1.0]),
        boxed([1.0, 5.0, 0.0], [3.0, 6.0, 1.0]),
    ]);
    let mut axis = wide_axis();
    let mut reporting: HashMap<(u32, u32), bool> = HashMap::default();
    axis.batch_insert(0, &[0, 1], &proxies, Some(&mut reporting));
    assert!(reporting.is_empty());
}

#[test]
fn disjoint_boxes_report_no_pair() {
    let proxies = table(&[cube(0.0, 1.0), cube(2.0, 3.0), cube(4.0, 5.0), cube(-3.0, -1.0)]);
    let mut reporting: HashMap<(u32, u32), bool> = HashMap::default();
    for dim in 0..3 {
        let mut axis = wide_axis();
        axis.batch_insert(dim, &[0, 1, 2, 3], &proxies, Some(&mut reporting));
        assert!(reporting.is_empty());
        axis.update_endpoints(dim, &proxies, &mut reporting);
        assert!(reporting.is_empty());
        assert!(is_sorted(&axis));
    }
}

#[test]
fn disjoint_boxes_report_no_overlap_when_they_pass_each_other() {
    let mut proxies = table(&[
        boxed([0.0, 0.0, 0.0], [1.0, 1.0, 1.0]),
        boxed([2.0, 5.0, 0.0], [3.0, 6.0, 1.0]),
    ]);
    let mut axis = wide_axis();
    let mut reporting: HashMap<(u32, u32), bool> = HashMap::default();
    axis.batch_insert(0, &[0, 1], &proxies, Some(&mut reporting));
    proxies.set_aabb(1, boxed([-3.0, 5.0, 0.0], [0.5, 6.0, 1.0]));
    axis.update_endpoints(0, &proxies, &mut reporting);
    assert!(reporting.values().all(|overlapping| !*overlapping));
    assert!(is_sorted(&axis));
}

#[test]
fn mutually_overlapping_boxes_report_every_pair() {
    let boxes = [cube(0.0, 10.0), cube(1.0, 11.0), cube(2.0, 12.0), cube(3.0, 13.0), cube(-1.0, 4.0)];
    let proxies = table(&boxes);
    for dim in 0..3 {
        let mut axis = wide_axis();
        let mut reporting: HashMap<(u32, u32), bool> = HashMap::default();
        axis.batch_insert(dim, &[0, 1, 2, 3, 4], &proxies, Some(&mut reporting));
        assert_eq!(reporting.len(), 10);
        for a in 0..5u32 {
            for b in (a + 1)..5u32 {
                assert_eq!(reporting.get(&(a, b)), Some(&true));
            }
        }
    }
}

#[test]
fn update_endpoints_reports_a_new_overlap() {
    let mut proxies = table(&[cube(0.0, 1.0), cube(5.0, 6.0)]);
    let mut axis = wide_axis();
    let mut reporting: HashMap<(u32, u32), bool> = HashMap::default();
    axis.batch_insert(0, &[0, 1], &proxies, Some(&mut reporting));
    assert!(reporting.is_empty());
    proxies.set_aabb(1, cube(0.5, 1.5));
    axis.update_endpoints(0, &proxies, &mut reporting);
    assert_eq!(reporting.len(), 1);
    assert_eq!(reporting.get(&(0, 1)), Some(&true));
    assert_eq!(
        axis.endpoints,
        vec![
            SAPEndpoint::start_sentinel(),
            start(0.0, 0),
            start(0.5, 1),
            end(1.0, 0),
            end(1.5, 1),
            SAPEndpoint::end_sentinel(),
        ]
    );
}

#[test]
fn update_endpoints_without_motion_reports_nothing() {
    let proxies = table(&[cube(0.0, 1.0), cube(0.5, 6.0), cube(3.0, 4.0)]);
    let mut axis = wide_axis();
    axis.batch_insert(0, &[0, 1, 2], &proxies, None);
    let before = axis.endpoints.clone();
    let mut reporting: HashMap<(u32, u32), bool> = HashMap::default();
    axis.update_endpoints(0, &proxies, &mut reporting);
    assert!(reporting.is_empty());
    assert_eq!(axis.endpoints, before);
}

#[test]
fn endpoints_stay_sorted_through_a_sequence_of_calls() {
    let mut proxies = table(&[cube(0.0, 1.0), cube(3.0, 4.0), cube(-5.0, 8.0), cube(2.0, 2.5)]);
    let mut axis = SAPAxis::new(fx(-10.0), fx(10.0));
    let mut reporting: HashMap<(u32, u32), bool> = HashMap::default();
    let mut existing = BitVec::from_elem(4, true);
    axis.batch_insert(0, &[2, 0], &proxies, Some(&mut reporting));
    assert!(is_sorted(&axis));
    axis.batch_insert(0, &[3, 1], &proxies, Some(&mut reporting));
    assert!(is_sorted(&axis));
    assert_eq!(axis.endpoints.len(), 10);
    proxies.set_aabb(0, cube(20.0, 21.0));
    proxies.set_aabb(3, cube(-1.0, 0.0));
    axis.update_endpoints(0, &proxies, &mut reporting);
    assert!(is_sorted(&axis));
    assert_eq!(axis.delete_out_of_bounds_proxies(&mut existing), 1);
    axis.delete_out_of_bounds_endpoints(&existing);
    assert!(is_sorted(&axis));
    assert_eq!(axis.endpoints.len(), 8);
    axis.update_endpoints(0, &proxies, &mut reporting);
    assert!(is_sorted(&axis));
    assert_eq!(axis.min_bound, fx(-10.0));
    assert_eq!(axis.max_bound, fx(10.0));
}

#[test]
fn delete_out_of_bounds_proxies_counts_each_proxy_once() {
    let mut proxies = table(&[cube(0.0, 1.0), cube(2.0, 3.0), cube(4.0, 5.0)]);
    let mut axis = SAPAxis::new(fx(-10.0), fx(10.0));
    let mut reporting: HashMap<(u32, u32), bool> = HashMap::default();
    axis.batch_insert(0, &[0, 1, 2], &proxies, None);
    let mut existing = BitVec::from_elem(3, true);
    assert_eq!(axis.delete_out_of_bounds_proxies(&mut existing), 0);
    assert!(existing.iter().all(|bit| bit));

    proxies.set_aabb(0, cube(-30.0, -20.0));
    proxies.set_aabb(1, cube(20.0, 21.0));
    axis.update_endpoints(0, &proxies, &mut reporting);
    assert_eq!(axis.delete_out_of_bounds_proxies(&mut existing), 2);
    assert_eq!(existing.get(0), Some(false));
    assert_eq!(existing.get(1), Some(false));
    assert_eq!(existing.get(2), Some(true));
    assert_eq!(axis.endpoints.len(), 8);
}

#[test]
fn delete_out_of_bounds_proxies_twice_deletes_nothing_more() {
    let mut proxies = table(&[cube(0.0, 1.0), cube(2.0, 3.0)]);
    let mut axis = SAPAxis::new(fx(-10.0), fx(10.0));
    let mut reporting: HashMap<(u32, u32), bool> = HashMap::default();
    axis.batch_insert(0, &[0, 1], &proxies, None);
    proxies.set_aabb(0, cube(-30.0, -20.0));
    proxies.set_aabb(1, cube(20.0, 21.0));
    axis.update_endpoints(0, &proxies, &mut reporting);
    let mut existing = BitVec::from_elem(2, true);
    assert_eq!(axis.delete_out_of_bounds_proxies(&mut existing), 2);
    assert_eq!(axis.delete_out_of_bounds_proxies(&mut existing), 0);
    assert!(existing.iter().all(|bit| !bit));
}

#[test]
fn delete_out_of_bounds_proxies_keeps_a_proxy_that_reaches_the_window() {
    let mut proxies = table(&[cube(0.0, 1.0), cube(2.0, 3.0)]);
    let mut axis = SAPAxis::new(fx(-10.0), fx(10.0));
    let mut reporting: HashMap<(u32, u32), bool> = HashMap::default();
    axis.batch_insert(0, &[0, 1], &proxies, None);
    proxies.set_aabb(0, cube(-30.0, -10.0));
    proxies.set_aabb(1, cube(10.0, 21.0));
    axis.update_endpoints(0, &proxies, &mut reporting);
    let mut existing = BitVec::from_elem(2, true);
    assert_eq!(axis.delete_out_of_bounds_proxies(&mut existing), 0);
    assert!(existing.iter().all(|bit| bit));
}

#[test]
fn delete_out_of_bounds_proxies_skips_cleared_bits() {
    let mut proxies = table(&[cube(0.0, 1.0)]);
    let mut axis = SAPAxis::new(fx(-10.0), fx(10.0));
    let mut reporting: HashMap<(u32, u32), bool> = HashMap::default();
    axis.batch_insert(0, &[0], &proxies, None);
    proxies.set_aabb(0, cube(50.0, 60.0));
    axis.update_endpoints(0, &proxies, &mut reporting);
    let mut existing = BitVec::from_elem(1, false);
    assert_eq!(axis.delete_out_of_bounds_proxies(&mut existing), 0);
    assert_eq!(existing.get(0), Some(false));
}

#[test]
fn delete_out_of_bounds_endpoints_keeps_order_and_sentinels() {
    let proxies = table(&[cube(0.0, 1.0), cube(0.5, 3.0), cube(2.0, 5.0)]);
    let mut axis = wide_axis();
    axis.batch_insert(0, &[0, 1, 2], &proxies, None);
    let workspace = axis.new_endpoints.clone();
    let mut existing = BitVec::from_elem(3, true);
    existing.set(1, false);
    axis.delete_out_of_bounds_endpoints(&existing);
    assert_eq!(
        axis.endpoints,
        vec![
            SAPEndpoint::start_sentinel(),
            start(0.0, 0),
            end(1.0, 0),
            start(2.0, 2),
            end(5.0, 2),
            SAPEndpoint::end_sentinel(),
        ]
    );
    assert_eq!(axis.new_endpoints, workspace);
    let none = BitVec::from_elem(3, false);
    axis.delete_out_of_bounds_endpoints(&none);
    assert_eq!(
        axis.endpoints,
        vec![SAPEndpoint::start_sentinel(), SAPEndpoint::end_sentinel()]
    );
}

#[test]
fn proxy_table_hands_out_indices_in_order() {
    let mut proxies = BroadPhaseProxies::new();
    assert_eq!(proxies.len(), 0);
    assert_eq!(proxies.insert(BroadPhaseProxy { aabb: cube(0.0, 1.0) }), 0);
    assert_eq!(proxies.insert(BroadPhaseProxy { aabb: cube(2.0, 3.0) }), 1);
    assert_eq!(proxies.len(), 2);
    assert_eq!(proxies.get(1).aabb, cube(2.0, 3.0));
    proxies.set_aabb(0, cube(7.0, 8.0));
    assert_eq!(proxies.get(0).aabb, cube(7.0, 8.0));
}

#[test]
fn batch_insert_does_not_report_boxes_that_only_touch() {
    let proxies = table(&[cube(0.0, 1.0), cube(1.0, 2.0)]);
    assert!(proxies.get(0).aabb.intersects(&proxies.get(1).aabb));
    let mut axis = wide_axis();
    let mut reporting: HashMap<(u32, u32), bool> = HashMap::default();
    axis.batch_insert(0, &[0, 1], &proxies, Some(&mut reporting));
    assert!(reporting.is_empty());
    assert_eq!(
        axis.endpoints,
        vec![
            SAPEndpoint::start_sentinel(),
            start(0.0, 0),
            end(1.0, 0),
            start(1.0, 1),
            end(2.0, 1),
            SAPEndpoint::end_sentinel(),
        ]
    );
}

#[test]
fn update_endpoints_moves_across_equal_values_only_when_smaller() {
    let mut proxies = table(&[cube(0.0, 1.0), cube(3.0, 4.0)]);
    let mut axis = wide_axis();
    let mut reporting: HashMap<(u32, u32), bool> = HashMap::default();
    axis.batch_insert(0, &[0, 1], &proxies, None);
    proxies.set_aabb(1, cube(1.0, 4.0));
    axis.update_endpoints(0, &proxies, &mut reporting);
    assert!(reporting.is_empty());
    assert_eq!(
        axis.endpoints,
        vec![
            SAPEndpoint::start_sentinel(),
            start(0.0, 0),
            end(1.0, 0),
            start(1.0, 1),
            end(4.0, 1),
            SAPEndpoint::end_sentinel(),
        ]
    );
}

#[test]
fn try_delete_out_of_bounds_proxies_needs_a_bit_for_each_proxy_it_drops() {
    let mut proxies = table(&[cube(0.0, 1.0), cube(2.0, 3.0), cube(4.0, 5.0)]);
    let mut axis = SAPAxis::new(fx(-10.0), fx(10.0));
    let mut reporting: HashMap<(u32, u32), bool> = HashMap::default();
    axis.batch_insert(0, &[0, 1, 2], &proxies, None);
    proxies.set_aabb(2, cube(20.0, 21.0));
    axis.update_endpoints(0, &proxies, &mut reporting);

    let mut short = BitVec::from_elem(2, true);
    assert!(!axis.prunable_in_range(&short));
    assert_eq!(axis.try_delete_out_of_bounds_proxies(&mut short), None);
    assert_eq!(short, BitVec::from_elem(2, true));

    let mut exact = BitVec::from_elem(3, true);
    assert!(axis.prunable_in_range(&exact));
    assert_eq!(axis.try_delete_out_of_bounds_proxies(&mut exact), Some(1));
    assert_eq!(exact.get(2), Some(false));
    assert_eq!(axis.try_delete_out_of_bounds_proxies(&mut exact), Some(0));
}

#[test]
fn prunable_in_range_looks_only_at_proxies_outside_the_window() {
    let proxies = table(&[cube(0.0, 1.0), cube(2.0, 3.0)]);
    let mut axis = SAPAxis::new(fx(-10.0), fx(10.0));
    axis.batch_insert(0, &[0, 1], &proxies, None);
    let mut empty = BitVec::new();
    assert!(axis.prunable_in_range(&empty));
    assert_eq!(axis.try_delete_out_of_bounds_proxies(&mut empty), Some(0));
    assert!(empty.is_empty());
}

#[test]
fn try_delete_out_of_bounds_endpoints_needs_a_bit_for_each_proxy() {
    let proxies = table(&[cube(0.0, 1.0), cube(2.0, 3.0)]);
    let mut axis = wide_axis();
    axis.batch_insert(0, &[0, 1], &proxies, None);
    let before = axis.endpoints.clone();

    let short = BitVec::from_elem(1, false);
    assert!(!axis.endpoints_in_range(&short));
    assert!(!axis.try_delete_out_of_bounds_endpoints(&short));
    assert_eq!(axis.endpoints, before);

    let mut exact = BitVec::from_elem(2, true);
    exact.set(0, false);
    assert!(axis.endpoints_in_range(&exact));
    assert!(axis.try_delete_out_of_bounds_endpoints(&exact));
    assert_eq!(
        axis.endpoints,
        vec![
            SAPEndpoint::start_sentinel(),
            start(2.0, 1),
            end(3.0, 1),
            SAPEndpoint::end_sentinel(),
        ]
    );
}

#[test]
fn endpoints_in_range_holds_of_an_axis_without_proxies() {
    let mut axis = wide_axis();
    let empty = BitVec::new();
    assert!(axis.endpoints_in_range(&empty));
    assert!(axis.try_delete_out_of_bounds_endpoints(&empty));
    assert_eq!(axis.endpoints.len(), 2);
}
