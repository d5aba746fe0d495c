//! Sorting and merging of endpoint sequences by value.
//!
//! Both are stable: of two endpoints with the same value, the one that came
//! first stays first, and an endpoint of the first sequence of a merge comes
//! before an equal endpoint of the second.

use crate::geometry::endpoint::SAPEndpoint;
use crate::math::Real;
use vstd::prelude::*;

verus! {

/// Whether the values of the endpoints ascend.
pub open spec fn spec_sorted(s: Seq<SAPEndpoint>) -> bool {
    forall|i: int, j: int| 0 <= i <= j < s.len() ==> s[i].value.raw <= s[j].value.raw
}

/// The merge of `a` and `b`, built from its last endpoint down: the last
/// endpoint of `a` where it is greater than the last of `b`, else the last of
/// `b`.
pub open spec fn spec_merge(a: Seq<SAPEndpoint>, b: Seq<SAPEndpoint>) -> Seq<SAPEndpoint>
    decreases a.len() + b.len(),
{
    if b.len() == 0 {
        a
    } else if a.len() > 0 && a.last().value.raw > b.last().value.raw {
        spec_merge(a.drop_last(), b).push(a.last())
    } else {
        spec_merge(a, b.drop_last()).push(b.last())
    }
}

/// The endpoints of `s` sorted by value: each half sorted, then the two
/// merged.
pub open spec fn spec_sort(s: Seq<SAPEndpoint>) -> Seq<SAPEndpoint>
    decreases s.len(),
{
    if s.len() <= 1 {
        s
    } else {
        spec_merge(spec_sort(s.take(s.len() as int / 2)), spec_sort(s.skip(s.len() as int / 2)))
    }
}

/// Number of the endpoints of `s` that are starts, where `start` is set, or
/// that are ends, where it is not.
pub open spec fn spec_count_kind(s: Seq<SAPEndpoint>, start: bool) -> nat
    decreases s.len(),
{
    if s.len() == 0 {
        0
    } else if s.last().is_start() == start {
        spec_count_kind(s.drop_last(), start) + 1
    } else {
        spec_count_kind(s.drop_last(), start)
    }
}

/// The endpoints of `s` sorted by value, each in turn put behind the last
/// endpoint before it that is not greater.
pub open spec fn spec_insertion_sort(s: Seq<SAPEndpoint>) -> Seq<SAPEndpoint>
    decreases s.len(),
{
    if s.len() == 0 {
        s
    } else {
        spec_merge(spec_insertion_sort(s.drop_last()), seq![s.last()])
    }
}

/// Number of endpoints of `a` up to the last one that is not greater than
/// `v`; in a sorted sequence, the number of endpoints that are not greater.
pub open spec fn spec_rank(a: Seq<SAPEndpoint>, v: Real) -> int
    decreases a.len(),
{
    if a.len() == 0 {
        0
    } else if a.last().value.raw <= v.raw {
        a.len() as int
    } else {
        spec_rank(a.drop_last(), v)
    }
}

/// Index at which the merge of the sorted sequences `a` and `b` holds the
/// endpoint `b[k]`: behind the `k` endpoints of `b` before it, and behind
/// the endpoints of `a` that are not greater.
pub open spec fn spec_merge_position(a: Seq<SAPEndpoint>, b: Seq<SAPEndpoint>, k: int) -> int {
    spec_rank(a, b[k].value) + k
}

/// A merge holds the endpoints of both sequences, each as often as they do.
pub proof fn lemma_merge_permutes(a: Seq<SAPEndpoint>, b: Seq<SAPEndpoint>)
    ensures
        spec_merge(a, b).len() == a.len() + b.len(),
        spec_merge(a, b).to_multiset() == a.to_multiset().add(b.to_multiset()),
        forall|e: SAPEndpoint| #[trigger]
            spec_merge(a, b).contains(e) <==> a.contains(e) || b.contains(e),
    decreases a.len() + b.len(),
{
    broadcast use vstd::seq_lib::group_to_multiset_ensures;

    let m = spec_merge(a, b);
    if b.len() == 0 {
        assert(b.to_multiset() =~= vstd::multiset::Multiset::empty());
        assert(a.to_multiset().add(b.to_multiset()) =~= a.to_multiset());
    } else if a.len() > 0 && a.last().value.raw > b.last().value.raw {
        lemma_merge_permutes(a.drop_last(), b);
        assert(a =~= a.drop_last().push(a.last()));
        assert(m.to_multiset() =~= a.to_multiset().add(b.to_multiset()));
    } else {
        lemma_merge_permutes(a, b.drop_last());
        assert(b =~= b.drop_last().push(b.last()));
        assert(m.to_multiset() =~= a.to_multiset().add(b.to_multiset()));
    }
    assert forall|e: SAPEndpoint| #[trigger] m.contains(e) <==> a.contains(e) || b.contains(e) by {
        assert(m.to_multiset().count(e) == a.to_multiset().count(e) + b.to_multiset().count(e));
    }
}

/// The merge of two sorted sequences is sorted.
pub proof fn lemma_merge_sorted(a: Seq<SAPEndpoint>, b: Seq<SAPEndpoint>)
    requires
        spec_sorted(a),
        spec_sorted(b),
    ensures
        spec_sorted(spec_merge(a, b)),
    decreases a.len() + b.len(),
{
    if b.len() == 0 {
    } else if a.len() > 0 && a.last().value.raw > b.last().value.raw {
        let rest = spec_merge(a.drop_last(), b);
        lemma_merge_sorted(a.drop_last(), b);
        lemma_merge_permutes(a.drop_last(), b);
        assert forall|i: int| 0 <= i < rest.len() implies rest[i].value.raw
            <= a.last().value.raw by {
            assert(rest.contains(rest[i]));
            lemma_member_below_last(a, b, rest[i]);
        }
    } else {
        let rest = spec_merge(a, b.drop_last());
        lemma_merge_sorted(a, b.drop_last());
        lemma_merge_permutes(a, b.drop_last());
        assert forall|i: int| 0 <= i < rest.len() implies rest[i].value.raw
            <= b.last().value.raw by {
            let e = rest[i];
            assert(rest.contains(e));
            if a.contains(e) {
                let k = choose|k: int| 0 <= k < a.len() && a[k] == e;
                assert(a[k].value.raw <= a.last().value.raw);
            } else {
                let k = choose|k: int| 0 <= k < b.drop_last().len() && b.drop_last()[k] == e;
                assert(b[k].value.raw <= b.last().value.raw);
            }
        }
    }
}

/// Where the last endpoint of `a` is greater than the last of `b`, it is at
/// least as great as every endpoint of the rest of `a` and of `b`.
proof fn lemma_member_below_last(a: Seq<SAPEndpoint>, b: Seq<SAPEndpoint>, e: SAPEndpoint)
    requires
        spec_sorted(a),
        spec_sorted(b),
        a.len() > 0,
        b.len() > 0,
        a.last().value.raw > b.last().value.raw,
        a.drop_last().contains(e) || b.contains(e),
    ensures
        e.value.raw <= a.last().value.raw,
{
    if a.drop_last().contains(e) {
        let k = choose|k: int| 0 <= k < a.drop_last().len() && a.drop_last()[k] == e;
        assert(a[k].value.raw <= a.last().value.raw);
    } else {
        let k = choose|k: int| 0 <= k < b.len() && b[k] == e;
        assert(b[k].value.raw <= b.last().value.raw);
    }
}

/// Sorting keeps every endpoint, each as often as before, and puts them in
/// ascending order of value.
pub proof fn lemma_sort_sorts(s: Seq<SAPEndpoint>)
    ensures
        spec_sorted(spec_sort(s)),
        spec_sort(s).len() == s.len(),
        spec_sort(s).to_multiset() == s.to_multiset(),
        forall|e: SAPEndpoint| #[trigger] spec_sort(s).contains(e) <==> s.contains(e),
    decreases s.len(),
{
    broadcast use vstd::seq_lib::group_to_multiset_ensures;

    if s.len() > 1 {
        let mid = s.len() as int / 2;
        let left = s.take(mid);
        let right = s.skip(mid);
        lemma_sort_sorts(left);
        lemma_sort_sorts(right);
        lemma_merge_sorted(spec_sort(left), spec_sort(right));
        lemma_merge_permutes(spec_sort(left), spec_sort(right));
        assert(s =~= left + right);
        vstd::seq_lib::lemma_multiset_commutative(left, right);
    }
    assert forall|e: SAPEndpoint| #[trigger] spec_sort(s).contains(e) <==> s.contains(e) by {
        assert(spec_sort(s).to_multiset().count(e) == s.to_multiset().count(e));
    }
}

/// Sorting by insertion keeps every endpoint, each as often as before, and
/// puts them in ascending order of value.
pub proof fn lemma_insertion_sort_sorts(s: Seq<SAPEndpoint>)
    ensures
        spec_sorted(spec_insertion_sort(s)),
        spec_insertion_sort(s).len() == s.len(),
        spec_insertion_sort(s).to_multiset() == s.to_multiset(),
        forall|e: SAPEndpoint| #[trigger] spec_insertion_sort(s).contains(e) <==> s.contains(e),
    decreases s.len(),
{
    broadcast use vstd::seq_lib::group_to_multiset_ensures;

    if s.len() > 0 {
        let front = spec_insertion_sort(s.drop_last());
        let one = seq![s.last()];
        lemma_insertion_sort_sorts(s.drop_last());
        lemma_merge_sorted(front, one);
        lemma_merge_permutes(front, one);
        assert(s =~= s.drop_last() + one);
        vstd::seq_lib::lemma_multiset_commutative(s.drop_last(), one);
    }
    assert forall|e: SAPEndpoint| #[trigger]
        spec_insertion_sort(s).contains(e) <==> s.contains(e) by {
        assert(spec_insertion_sort(s).to_multiset().count(e) == s.to_multiset().count(e));
    }
}

/// Merging a single endpoint into a sequence puts it at index `at`, where
/// every endpoint from `at` on is greater and the one before `at`, if there
/// is one, is not.
pub proof fn lemma_merge_single(a: Seq<SAPEndpoint>, e: SAPEndpoint, at: int)
    requires
        0 <= at <= a.len(),
        forall|k: int| at <= k < a.len() ==> a[k].value.raw > e.value.raw,
        at > 0 ==> a[at - 1].value.raw <= e.value.raw,
    ensures
        spec_merge(a, seq![e]) == a.take(at).push(e) + a.skip(at),
    decreases a.len() - at,
{
    let one = seq![e];
    assert(one.drop_last() =~= Seq::<SAPEndpoint>::empty());
    if at == a.len() {
        assert(spec_merge(a, one.drop_last()) == a);
        assert(a.push(e) =~= a.take(at).push(e) + a.skip(at));
    } else {
        lemma_merge_single(a.drop_last(), e, at);
        assert(a.drop_last().take(at) =~= a.take(at));
        assert((a.take(at).push(e) + a.drop_last().skip(at)).push(a.last()) =~= a.take(at).push(e)
            + a.skip(at));
    }
}

/// The rank of `v` in `a` is `at` where every endpoint from `at` on is
/// greater than `v` and the one before `at`, if there is one, is not.
pub proof fn lemma_rank(a: Seq<SAPEndpoint>, v: Real, at: int)
    requires
        0 <= at <= a.len(),
        forall|k: int| at <= k < a.len() ==> a[k].value.raw > v.raw,
        at > 0 ==> a[at - 1].value.raw <= v.raw,
    ensures
        spec_rank(a, v) == at,
    decreases a.len() - at,
{
    if at < a.len() {
        lemma_rank(a.drop_last(), v, at);
    }
}

/// The count over two sequences joined is the sum of their counts.
pub proof fn lemma_count_kind_joined(a: Seq<SAPEndpoint>, b: Seq<SAPEndpoint>, start: bool)
    ensures
        spec_count_kind(a + b, start) == spec_count_kind(a, start) + spec_count_kind(b, start),
    decreases b.len(),
{
    if b.len() == 0 {
        assert(a + b =~= a);
    } else {
        lemma_count_kind_joined(a, b.drop_last(), start);
        assert((a + b).drop_last() =~= a + b.drop_last());
    }
}

/// Every endpoint is a start or an end.
pub proof fn lemma_count_kind_total(s: Seq<SAPEndpoint>)
    ensures
        spec_count_kind(s, true) + spec_count_kind(s, false) == s.len(),
    decreases s.len(),
{
    if s.len() > 0 {
        lemma_count_kind_total(s.drop_last());
    }
}

/// A greater value has no smaller rank.
pub proof fn lemma_rank_monotone(a: Seq<SAPEndpoint>, v: Real, w: Real)
    requires
        v.raw <= w.raw,
    ensures
        0 <= spec_rank(a, v) <= spec_rank(a, w) <= a.len(),
    decreases a.len(),
{
    if a.len() > 0 {
        lemma_rank_monotone(a.drop_last(), v, w);
    }
}

/// The merge of `a` with the sorted sequence `b` holds each endpoint of `b`
/// at its merge position.
pub proof fn lemma_merge_position(a: Seq<SAPEndpoint>, b: Seq<SAPEndpoint>, k: int)
    requires
        spec_sorted(b),
        0 <= k < b.len(),
    ensures
        0 <= spec_merge_position(a, b, k) < spec_merge(a, b).len(),
        spec_merge(a, b)[spec_merge_position(a, b, k)] == b[k],
    decreases a.len() + b.len(),
{
    lemma_merge_permutes(a, b);
    lemma_rank_monotone(a, b[k].value, b[k].value);
    if a.len() > 0 && a.last().value.raw > b.last().value.raw {
        lemma_merge_permutes(a.drop_last(), b);
        lemma_merge_position(a.drop_last(), b, k);
        assert(b[k].value.raw <= b.last().value.raw);
    } else {
        lemma_merge_permutes(a, b.drop_last());
        if k < b.len() - 1 {
            lemma_merge_position(a, b.drop_last(), k);
            assert(b.drop_last()[k] == b[k]);
        }
    }
}

/// In the merge with a sorted sequence, a later endpoint of that sequence
/// stands at a greater index.
pub proof fn lemma_merge_position_increases(
    a: Seq<SAPEndpoint>,
    b: Seq<SAPEndpoint>,
    k: int,
    l: int,
)
    requires
        spec_sorted(b),
        0 <= k < l < b.len(),
    ensures
        spec_merge_position(a, b, k) < spec_merge_position(a, b, l),
{
    lemma_rank_monotone(a, b[k].value, b[l].value);
}

/// Dropping endpoints from a sorted sequence leaves it sorted, and leaves
/// its first and its last endpoint in place where they are kept.
pub proof fn lemma_filter_keeps_order(s: Seq<SAPEndpoint>, keep: spec_fn(SAPEndpoint) -> bool)
    requires
        spec_sorted(s),
    ensures
        spec_sorted(s.filter(keep)),
        forall|e: SAPEndpoint| #[trigger] s.filter(keep).contains(e) ==> s.contains(e),
        s.len() >= 1 && keep(s[0]) ==> s.filter(keep).len() >= 1 && s.filter(keep)[0] == s[0],
        s.len() >= 1 && keep(s.last()) ==> s.filter(keep).len() >= 1 && s.filter(keep).last()
            == s.last(),
        s.len() >= 2 && keep(s[0]) && keep(s.last()) ==> s.filter(keep).len() >= 2,
    decreases s.len(),
{
    reveal(Seq::filter);
    if s.len() > 0 {
        let front = s.drop_last();
        lemma_filter_keeps_order(front, keep);
        let kept = front.filter(keep);
        assert forall|e: SAPEndpoint| #[trigger] s.filter(keep).contains(e) implies s.contains(
            e,
        ) by {
            let i = choose|i: int| 0 <= i < s.filter(keep).len() && s.filter(keep)[i] == e;
            if i < kept.len() {
                assert(kept.contains(e));
                let k = choose|k: int| 0 <= k < front.len() && front[k] == e;
                assert(s[k] == e);
            } else {
                assert(s[s.len() - 1] == e);
            }
        }
        if keep(s.last()) {
            assert forall|i: int| 0 <= i < kept.len() implies kept[i].value.raw
                <= s.last().value.raw by {
                assert(kept.contains(kept[i]));
                let k = choose|k: int| 0 <= k < front.len() && front[k] == kept[i];
                assert(s[k].value.raw <= s[s.len() - 1].value.raw);
            }
        }
    }
}

/// Merges the sorted endpoints of `b` into those of `a`.
pub fn merge_sorted(a: Vec<SAPEndpoint>, b: &Vec<SAPEndpoint>) -> (out: Vec<SAPEndpoint>)
    requires
        a@.len() + b@.len() <= usize::MAX,
    ensures
        out@ == spec_merge(a@, b@),
{
    let a_len = a.len();
    let b_len = b.len();
    let mut out = a;
    let mut k: usize = 0;
    while k < b_len
        invariant
            k <= b_len == b@.len(),
            a_len + b_len <= usize::MAX,
            out@ == a@ + b@.take(k as int),
        decreases b_len - k,
    {
        out.push(b[k]);
        k += 1;
        assert(out@ =~= a@ + b@.take(k as int));
    }
    let mut ai: usize = a_len;
    let mut bi: usize = b_len;
    assert(a@.take(ai as int) =~= a@);
    assert(b@.take(bi as int) =~= b@);
    assert(spec_merge(a@, b@) =~= spec_merge(a@, b@) + out@.skip(ai + bi));
    while bi > 0
        invariant
            ai <= a_len == a@.len(),
            bi <= b_len == b@.len(),
            out@.len() == a_len + b_len <= usize::MAX,
            out@.take(ai as int) == a@.take(ai as int),
            spec_merge(a@, b@) == spec_merge(a@.take(ai as int), b@.take(bi as int)) + out@.skip(
                ai + bi,
            ),
        decreases ai + bi,
    {
        let ghost before = out@;
        let ghost rest = out@.skip(ai + bi);
        let ghost front_a = a@.take(ai as int);
        let ghost front_b = b@.take(bi as int);
        let last_b = b[bi - 1];
        assert(front_b.last() == last_b);
        assert(front_b.drop_last() =~= b@.take(bi - 1));
        if ai > 0 {
            assert(out@[ai - 1] == out@.take(ai as int)[ai - 1]);
            assert(front_a.last() == out@[ai - 1]);
            assert(front_a.drop_last() =~= a@.take(ai - 1));
        }
        if ai > 0 && out[ai - 1].value.raw > last_b.value.raw {
            let last_a = out[ai - 1];
            out[ai + bi - 1] = last_a;
            ai -= 1;
            assert(out@.skip(ai + bi) =~= seq![last_a] + rest);
            assert(spec_merge(front_a, front_b) + rest =~= spec_merge(a@.take(ai as int), front_b)
                + out@.skip(ai + bi));
        } else {
            out[ai + bi - 1] = last_b;
            bi -= 1;
            assert(out@.skip(ai + bi) =~= seq![last_b] + rest);
            assert(spec_merge(front_a, front_b) + rest =~= spec_merge(front_a, b@.take(bi as int))
                + out@.skip(ai + bi));
        }
        assert(out@.take(ai as int) =~= a@.take(ai as int)) by {
            assert forall|i: int| 0 <= i < ai implies out@[i] == a@[i] by {
                assert(before.take(ai as int + 1)[i] == before[i]);
                assert(before[i] == before.take(front_a.len() as int)[i]);
            }
        }
    }
    assert(out@ =~= out@.take(ai as int) + out@.skip(ai as int));
    out
}

/// Sorts the endpoints of `v` from index `lo` up to, not including, `hi`.
fn sort_range(v: &Vec<SAPEndpoint>, lo: usize, hi: usize) -> (out: Vec<SAPEndpoint>)
    requires
        lo <= hi <= v@.len(),
    ensures
        out@ == spec_sort(v@.subrange(lo as int, hi as int)),
    decreases hi - lo,
{
    let ghost s = v@.subrange(lo as int, hi as int);
    if hi - lo <= 1 {
        let mut out = Vec::new();
        if hi > lo {
            out.push(v[lo]);
        }
        assert(out@ =~= s);
        out
    } else {
        let mid = lo + (hi - lo) / 2;
        let left = sort_range(v, lo, mid);
        let right = sort_range(v, mid, hi);
        proof {
            assert(s.take(s.len() as int / 2) =~= v@.subrange(lo as int, mid as int));
            assert(s.skip(s.len() as int / 2) =~= v@.subrange(mid as int, hi as int));
            lemma_sort_sorts(v@.subrange(lo as int, mid as int));
            lemma_sort_sorts(v@.subrange(mid as int, hi as int));
        }
        merge_sorted(left, &right)
    }
}

/// Sorts endpoints by value; endpoints of equal value keep their order.
pub fn sort_endpoints(v: &Vec<SAPEndpoint>) -> (out: Vec<SAPEndpoint>)
    ensures
        out@ == spec_sort(v@),
        spec_sorted(out@),
        out@.len() == v@.len(),
        out@.to_multiset() == v@.to_multiset(),
{
    proof {
        assert(v@.subrange(0, v@.len() as int) =~= v@);
        lemma_sort_sorts(v@);
    }
    sort_range(v, 0, v.len())
}

} // verus!
