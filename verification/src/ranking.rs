//! Ranking values from the largest down.
//!
//! Of two values the larger comes first, and of two that compare as equal the one
//! that stands first. This is an order wherever comparing the values is a strict
//! weak order, as it is for numbers that can be compared. Other values come in the
//! order that merging sorted halves gives.
use crate::scalar::{functional, less_than, Scalar};
use vstd::prelude::*;

verus! {

/// Whether `<` is a strict weak order on the values of `s`.
pub open spec fn weakly_ordered<T: Scalar>(s: Seq<T>) -> bool {
    &&& forall|i: int, j: int|
        0 <= i < s.len() && 0 <= j < s.len() && #[trigger] less_than(s[i], s[j]) ==> !less_than(
            s[j],
            s[i],
        )
    &&& forall|i: int, j: int, k: int|
        #![trigger less_than(s[i], s[k]), less_than(s[i], s[j])]
        #![trigger less_than(s[i], s[k]), less_than(s[j], s[k])]
        0 <= i < s.len() && 0 <= j < s.len() && 0 <= k < s.len() && less_than(s[i], s[k])
            ==> less_than(s[i], s[j]) || less_than(s[j], s[k])
}

/// Whether place `i` comes before place `j` in the ranking: its value is larger, or
/// neither is and `i` is the smaller place.
pub open spec fn before<T: Scalar>(s: Seq<T>, i: int, j: int) -> bool {
    less_than(s[j], s[i]) || (!less_than(s[i], s[j]) && i < j)
}

/// The places that come before `i`.
pub open spec fn places_before<T: Scalar>(s: Seq<T>, i: int) -> Set<int> {
    Set::new(|j: int| 0 <= j < s.len() && before(s, j, i))
}

/// How many places come before `i`.
pub open spec fn rank_of<T: Scalar>(s: Seq<T>, i: int) -> nat {
    places_before(s, i).len()
}

/// The places whose values are larger than `x`.
pub open spec fn places_above<T: Scalar>(s: Seq<T>, x: T) -> Set<int> {
    Set::new(|j: int| 0 <= j < s.len() && less_than(x, s[j]))
}

/// How many values are larger than `x`.
pub open spec fn count_above<T: Scalar>(s: Seq<T>, x: T) -> nat {
    places_above(s, x).len()
}

/// The places in the order of their ranks.
pub open spec fn ranked<T: Scalar>(s: Seq<T>) -> Seq<int> {
    Seq::new(s.len(), |m: int| choose|i: int| 0 <= i < s.len() && #[trigger] rank_of(s, i) == m)
}

/// Two lists of places merged: the entry with the larger value comes first, and that
/// of `left` where neither is larger.
pub open spec fn merged<T: Scalar>(s: Seq<T>, left: Seq<usize>, right: Seq<usize>) -> Seq<usize>
    decreases left.len() + right.len(),
{
    if left.len() == 0 {
        right
    } else if right.len() == 0 {
        left
    } else if less_than(s[left[0] as int], s[right[0] as int]) {
        seq![right[0]] + merged(s, left, right.drop_first())
    } else {
        seq![left[0]] + merged(s, left.drop_first(), right)
    }
}

/// The places from `lo` up to `hi` as merging their sorted halves orders them.
pub open spec fn merge_sorted<T: Scalar>(s: Seq<T>, lo: int, hi: int) -> Seq<usize>
    decreases hi - lo,
{
    if hi - lo <= 0 {
        Seq::empty()
    } else if hi - lo == 1 {
        seq![lo as usize]
    } else {
        let mid = lo + (hi - lo) / 2;
        merged(s, merge_sorted(s, lo, mid), merge_sorted(s, mid, hi))
    }
}

/// The places from the largest value down: in the order of their ranks where the
/// values can be ranked, and else as merging orders them.
pub open spec fn order_of<T: Scalar>(s: Seq<T>) -> Seq<int> {
    if weakly_ordered(s) {
        ranked(s)
    } else {
        as_places(merge_sorted(s, 0, s.len() as int))
    }
}

/// The entries of a list as numbers.
pub open spec fn as_places(order: Seq<usize>) -> Seq<int> {
    Seq::new(order.len(), |m: int| order[m] as int)
}

proof fn lemma_merged_len<T: Scalar>(s: Seq<T>, left: Seq<usize>, right: Seq<usize>)
    ensures
        merged(s, left, right).len() == left.len() + right.len(),
    decreases left.len() + right.len(),
{
    if left.len() > 0 && right.len() > 0 {
        lemma_merged_len(s, left, right.drop_first());
        lemma_merged_len(s, left.drop_first(), right);
    }
}

proof fn lemma_merge_sorted_len<T: Scalar>(s: Seq<T>, lo: int, hi: int)
    requires
        lo <= hi,
    ensures
        merge_sorted(s, lo, hi).len() == hi - lo,
    decreases hi - lo,
{
    if hi - lo > 1 {
        let mid = lo + (hi - lo) / 2;
        lemma_merge_sorted_len(s, lo, mid);
        lemma_merge_sorted_len(s, mid, hi);
        lemma_merged_len(s, merge_sorted(s, lo, mid), merge_sorted(s, mid, hi));
    }
}

/// Every place has its place in the order.
pub proof fn lemma_order_len<T: Scalar>(s: Seq<T>)
    ensures
        order_of(s).len() == s.len(),
{
    lemma_merge_sorted_len(s, 0, s.len() as int);
}

/// Whether `order` lists the places from `lo` up to `hi`, each once.
pub open spec fn lists(order: Seq<usize>, lo: int, hi: int) -> bool {
    &&& order.len() == hi - lo
    &&& order.no_duplicates()
    &&& forall|m: int| 0 <= m < order.len() ==> lo <= #[trigger] order[m] < hi
}

/// Whether each entry of `order` comes before those that follow it.
pub open spec fn descends<T: Scalar>(s: Seq<T>, order: Seq<usize>) -> bool {
    forall|a: int, b: int|
        0 <= a < b < order.len() ==> #[trigger] before(s, order[a] as int, order[b] as int)
}

proof fn lemma_before_transitive<T: Scalar>(s: Seq<T>, i: int, j: int, k: int)
    requires
        weakly_ordered(s),
        0 <= i < s.len(),
        0 <= j < s.len(),
        0 <= k < s.len(),
        before(s, i, j),
        before(s, j, k),
    ensures
        before(s, i, k),
{
    if less_than(s[j], s[i]) {
        // j < i, and not j < k: so k < i.
        assert(!less_than(s[j], s[k]));
        assert(less_than(s[j], s[k]) || less_than(s[k], s[i]));
    } else if less_than(s[k], s[j]) {
        assert(less_than(s[k], s[i]) || less_than(s[i], s[j]));
    } else {
        if less_than(s[i], s[k]) {
            assert(less_than(s[i], s[j]) || less_than(s[j], s[k]));
        }
    }
}

proof fn lemma_before_asymmetric<T: Scalar>(s: Seq<T>, i: int, j: int)
    requires
        weakly_ordered(s),
        0 <= i < s.len(),
        0 <= j < s.len(),
        before(s, i, j),
    ensures
        !before(s, j, i),
{
}

pub(crate) proof fn lemma_lists_all(order: Seq<usize>, n: int, i: int)
    requires
        lists(order, 0, n),
        0 <= i < n,
    ensures
        exists|m: int| 0 <= m < n && #[trigger] order[m] == i,
{
    let ints = Seq::new(order.len(), |m: int| order[m] as int);
    assert(ints.no_duplicates());
    ints.unique_seq_to_set();
    let all = vstd::set_lib::set_int_range(0, n);
    vstd::set_lib::lemma_int_range(0, n);
    assert(ints.to_set().subset_of(all)) by {
        assert forall|x: int| ints.to_set().contains(x) implies all.contains(x) by {
            let m = choose|m: int| 0 <= m < ints.len() && ints[m] == x;
            assert(0 <= order[m] < n);
        }
    }
    vstd::set_lib::lemma_subset_equality(ints.to_set(), all);
    assert(ints.to_set().contains(i));
    let m = choose|m: int| 0 <= m < ints.len() && ints[m] == i;
    assert(order[m] == i);
}

/// The first `c` entries of a list of places are `c` places.
proof fn lemma_prefix_count(order: Seq<usize>, n: int, c: int, places: Set<int>)
    requires
        lists(order, 0, n),
        0 <= c <= n,
        forall|m: int| 0 <= m < n ==> (places.contains(#[trigger] order[m] as int) <==> m < c),
        forall|i: int| #[trigger] places.contains(i) ==> 0 <= i < n,
    ensures
        places.len() == c,
{
    let front = Seq::new(c as nat, |m: int| order[m] as int);
    assert(front.no_duplicates());
    front.unique_seq_to_set();
    assert(front.to_set() =~= places) by {
        assert forall|i: int| front.to_set().contains(i) == places.contains(i) by {
            if front.to_set().contains(i) {
                let m = choose|m: int| 0 <= m < front.len() && front[m] == i;
                assert(places.contains(order[m] as int));
            }
            if places.contains(i) {
                lemma_lists_all(order, n, i);
                let m = choose|m: int| 0 <= m < n && #[trigger] order[m] == i;
                assert(m < c);
                assert(front[m] == i);
            }
        }
    }
}

/// A list of all places in which each comes before the next ones is the ranking.
pub proof fn lemma_ranking<T: Scalar>(s: Seq<T>, order: Seq<usize>)
    requires
        weakly_ordered(s),
        lists(order, 0, s.len() as int),
        descends(s, order),
    ensures
        forall|m: int| 0 <= m < s.len() ==> rank_of(s, #[trigger] order[m] as int) == m,
        ranked(s) == Seq::new(s.len(), |m: int| order[m] as int),
{
    let n = s.len() as int;
    assert forall|m: int| 0 <= m < n implies rank_of(s, #[trigger] order[m] as int) == m by {
        let i = order[m] as int;
        assert forall|t: int| 0 <= t < n implies (places_before(s, i).contains(
            #[trigger] order[t] as int,
        ) <==> t < m) by {
            if t < m {
                assert(before(s, order[t] as int, order[m] as int));
            } else if t > m {
                assert(before(s, order[m] as int, order[t] as int));
                lemma_before_asymmetric(s, i, order[t] as int);
            }
        }
        lemma_prefix_count(order, n, m, places_before(s, i));
    }
    assert forall|m: int| 0 <= m < n implies ranked(s)[m] == order[m] as int by {
        assert(rank_of(s, order[m] as int) == m);
        let i = choose|i: int| 0 <= i < s.len() && #[trigger] rank_of(s, i) == m;
        lemma_lists_all(order, n, i);
        let t = choose|t: int| 0 <= t < n && #[trigger] order[t] == i;
        assert(rank_of(s, order[t] as int) == t);
    }
    assert(ranked(s) =~= Seq::new(s.len(), |m: int| order[m] as int));
}

/// The value of rank `k - 1` divides the values: those below it are those that at
/// least `k` values are larger than.
pub proof fn lemma_threshold<T: Scalar>(s: Seq<T>, order: Seq<usize>, k: int, i: int)
    requires
        weakly_ordered(s),
        lists(order, 0, s.len() as int),
        descends(s, order),
        0 < k <= s.len(),
        0 <= i < s.len(),
    ensures
        less_than(s[i], s[order[k - 1] as int]) <==> count_above(s, s[i]) >= k,
{
    let n = s.len() as int;
    let x = s[i];
    lemma_lists_all(order, n, i);
    // Where an entry is larger than x, so are the entries before it.
    let c = lemma_above_prefix(s, order, i, n);
    lemma_prefix_count(order, n, c, places_above(s, x));
}

proof fn lemma_above_prefix<T: Scalar>(s: Seq<T>, order: Seq<usize>, i: int, upto: int) -> (c: int)
    requires
        weakly_ordered(s),
        lists(order, 0, s.len() as int),
        descends(s, order),
        0 <= i < s.len(),
        0 <= upto <= s.len(),
    ensures
        0 <= c <= upto,
        forall|m: int|
            0 <= m < upto ==> (less_than(s[i], s[#[trigger] order[m] as int]) <==> m < c),
    decreases upto,
{
    if upto == 0 {
        0
    } else {
        let c = lemma_above_prefix(s, order, i, upto - 1);
        let last = order[upto - 1] as int;
        if less_than(s[i], s[last]) {
            if c < upto - 1 {
                let e = order[c] as int;
                assert(before(s, order[c] as int, order[upto - 1] as int));
                assert(less_than(s[i], s[e]) || less_than(s[e], s[last]));
                assert(less_than(s[i], s[e]));
            }
            upto
        } else {
            c
        }
    }
}

/// Values that can be ranked have a ranking: there is a list of all places in which
/// each comes before the next ones.
pub proof fn lemma_ranking_exists<T: Scalar>(s: Seq<T>) -> (order: Seq<usize>)
    requires
        weakly_ordered(s),
        s.len() <= usize::MAX,
    ensures
        lists(order, 0, s.len() as int),
        descends(s, order),
{
    lemma_ranking_below(s, s.len() as int)
}

proof fn lemma_ranking_below<T: Scalar>(s: Seq<T>, n: int) -> (order: Seq<usize>)
    requires
        weakly_ordered(s),
        0 <= n <= s.len() <= usize::MAX,
    ensures
        lists(order, 0, n),
        descends(s, order),
    decreases n,
{
    if n == 0 {
        Seq::empty()
    } else {
        let fewer = lemma_ranking_below(s, n - 1);
        let at = lemma_place_for(s, fewer, n - 1, 0);
        let order = fewer.insert(at, (n - 1) as usize);
        assert forall|a: int, b: int| 0 <= a < b < order.len() implies #[trigger] before(
            s,
            order[a] as int,
            order[b] as int,
        ) by {
            let (x, y) = (if a < at {
                a
            } else {
                a - 1
            }, if b < at {
                b
            } else {
                b - 1
            });
            if a != at && b != at {
                assert(before(s, fewer[x] as int, fewer[y] as int));
            } else if a == at {
                assert(before(s, n - 1, fewer[y] as int));
            } else {
                assert(before(s, fewer[x] as int, n - 1));
            }
        }
        assert forall|a: int, b: int| 0 <= a < order.len() && 0 <= b < order.len() && a
            != b implies order[a] != order[b] by {
            let (x, y) = (if a < at {
                a
            } else {
                a - 1
            }, if b < at {
                b
            } else {
                b - 1
            });
            if a != at && b != at {
                assert(fewer[x] != fewer[y]);
            } else if a == at {
                assert(fewer[y] < n - 1);
            } else {
                assert(fewer[x] < n - 1);
            }
        }
        assert forall|m: int| 0 <= m < order.len() implies 0 <= #[trigger] order[m] < n by {
            if m < at {
                assert(0 <= fewer[m] < n - 1);
            } else if m > at {
                assert(0 <= fewer[m - 1] < n - 1);
            }
        }
        order
    }
}

/// Where place `i`, which is larger than those in `order`, belongs in it, once it
/// does not belong before entry `from`.
proof fn lemma_place_for<T: Scalar>(s: Seq<T>, order: Seq<usize>, i: int, from: int) -> (at: int)
    requires
        weakly_ordered(s),
        0 <= i < s.len(),
        lists(order, 0, i),
        descends(s, order),
        0 <= from <= order.len(),
        forall|m: int| 0 <= m < from ==> #[trigger] before(s, order[m] as int, i),
    ensures
        0 <= at <= order.len(),
        forall|m: int| 0 <= m < at ==> #[trigger] before(s, order[m] as int, i),
        forall|m: int| at <= m < order.len() ==> #[trigger] before(s, i, order[m] as int),
    decreases order.len() - from,
{
    if from == order.len() {
        from
    } else {
        let e = order[from] as int;
        assert(0 <= order[from] < i);
        if before(s, e, i) {
            lemma_place_for(s, order, i, from + 1)
        } else {
            assert(before(s, i, e));
            assert forall|m: int| from <= m < order.len() implies #[trigger] before(
                s,
                i,
                order[m] as int,
            ) by {
                if m > from {
                    assert(0 <= order[m] < i);
                    assert(before(s, order[from] as int, order[m] as int));
                    lemma_before_transitive(s, i, e, order[m] as int);
                }
            }
            from
        }
    }
}

/// The places of `values`, from the largest value down.
pub fn ranking<T: Scalar>(values: &[T]) -> (r: Vec<usize>)
    ensures
        lists(r@, 0, values@.len() as int),
        functional::<T>() ==> as_places(r@) == order_of(values@),
        functional::<T>() && weakly_ordered(values@) ==> descends(values@, r@),
{
    let r = rank_range(values, 0, values.len());
    proof {
        if functional::<T>() && weakly_ordered(values@) {
            lemma_ranking(values@, r@);
            assert(as_places(r@) =~= ranked(values@));
        }
    }
    r
}

fn rank_range<T: Scalar>(values: &[T], lo: usize, hi: usize) -> (r: Vec<usize>)
    requires
        lo <= hi <= values@.len(),
    ensures
        lists(r@, lo as int, hi as int),
        functional::<T>() ==> r@ == merge_sorted(values@, lo as int, hi as int),
        functional::<T>() && weakly_ordered(values@) ==> descends(values@, r@),
    decreases hi - lo,
{
    let mut r: Vec<usize> = Vec::new();
    if hi - lo == 0 {
        return r;
    }
    if hi - lo == 1 {
        r.push(lo);
        return r;
    }
    let mid: usize = lo + (hi - lo) / 2;
    let left = rank_range(values, lo, mid);
    let right = rank_range(values, mid, hi);
    merge(values, &left, &right, Ghost(lo as int), Ghost(mid as int), Ghost(hi as int))
}

fn merge<T: Scalar>(
    values: &[T],
    left: &Vec<usize>,
    right: &Vec<usize>,
    Ghost(lo): Ghost<int>,
    Ghost(mid): Ghost<int>,
    Ghost(hi): Ghost<int>,
) -> (r: Vec<usize>)
    requires
        0 <= lo <= mid <= hi <= values@.len(),
        lists(left@, lo, mid),
        lists(right@, mid, hi),
        functional::<T>() && weakly_ordered(values@) ==> descends(values@, left@),
        functional::<T>() && weakly_ordered(values@) ==> descends(values@, right@),
    ensures
        lists(r@, lo, hi),
        functional::<T>() ==> r@ == merged(values@, left@, right@),
        functional::<T>() && weakly_ordered(values@) ==> descends(values@, r@),
{
    let ghost s = values@;
    let ghost ordered = functional::<T>() && weakly_ordered(s);
    let mut out: Vec<usize> = Vec::with_capacity(left.len());
    let mut a: usize = 0;
    let mut b: usize = 0;
    proof {
        assert(left@.skip(0) =~= left@);
        assert(right@.skip(0) =~= right@);
        assert(out@ + merged(s, left@, right@) =~= merged(s, left@, right@));
    }
    while a < left.len() || b < right.len()
        invariant
            functional::<T>() ==> out@ + merged(s, left@.skip(a as int), right@.skip(b as int))
                == merged(s, left@, right@),
            s == values@,
            ordered == (functional::<T>() && weakly_ordered(s)),
            0 <= lo <= mid <= hi <= s.len(),
            a <= left@.len(),
            b <= right@.len(),
            lists(left@, lo, mid),
            lists(right@, mid, hi),
            ordered ==> descends(s, left@),
            ordered ==> descends(s, right@),
            out@.len() == a + b,
            out@.no_duplicates(),
            forall|m: int| 0 <= m < out@.len() ==> lo <= #[trigger] out@[m] < hi,
            forall|m: int, x: int|
                0 <= m < out@.len() && a <= x < left@.len() ==> #[trigger] out@[m]
                    != #[trigger] left@[x],
            forall|m: int, y: int|
                0 <= m < out@.len() && b <= y < right@.len() ==> #[trigger] out@[m]
                    != #[trigger] right@[y],
            ordered ==> descends(s, out@),
            ordered ==> forall|m: int, x: int|
                0 <= m < out@.len() && a <= x < left@.len() ==> #[trigger] before(
                    s,
                    out@[m] as int,
                    left@[x] as int,
                ),
            ordered ==> forall|m: int, y: int|
                0 <= m < out@.len() && b <= y < right@.len() ==> #[trigger] before(
                    s,
                    out@[m] as int,
                    right@[y] as int,
                ),
        decreases left@.len() - a + right@.len() - b,
    {
        let take_left: bool = if a >= left.len() {
            false
        } else if b >= right.len() {
            true
        } else {
            !less_than(values[left[a]], values[right[b]])
        };
        let ghost done = out@;
        let ghost (l, r) = (left@.skip(a as int), right@.skip(b as int));
        proof {
            if a < left@.len() {
                assert(l[0] == left@[a as int]);
                assert(l.drop_first() =~= left@.skip(a + 1));
            }
            if b < right@.len() {
                assert(r[0] == right@[b as int]);
                assert(r.drop_first() =~= right@.skip(b + 1));
            }
        }
        if take_left {
            let next: usize = left[a];
            proof {
                if ordered {
                    assert forall|x: int| a < x < left@.len() implies #[trigger] before(
                        s,
                        next as int,
                        left@[x] as int,
                    ) by {
                        assert(before(s, left@[a as int] as int, left@[x] as int));
                    }
                    assert forall|y: int| b <= y < right@.len() implies #[trigger] before(
                        s,
                        next as int,
                        right@[y] as int,
                    ) by {
                        assert(before(s, next as int, right@[b as int] as int));
                        if y > b {
                            assert(before(s, right@[b as int] as int, right@[y] as int));
                            lemma_before_transitive(
                                s,
                                next as int,
                                right@[b as int] as int,
                                right@[y] as int,
                            );
                        }
                    }
                }
            }
            out.push(next);
            a = a + 1;
            proof {
                if functional::<T>() {
                    let rest = merged(s, left@.skip(a as int), r);
                    assert(merged(s, l, r) =~= seq![next] + rest);
                    assert(out@ + rest =~= done + merged(s, l, r));
                }
            }
        } else {
            let next: usize = right[b];
            proof {
                if ordered {
                    assert forall|y: int| b < y < right@.len() implies #[trigger] before(
                        s,
                        next as int,
                        right@[y] as int,
                    ) by {
                        assert(before(s, right@[b as int] as int, right@[y] as int));
                    }
                    assert forall|x: int| a <= x < left@.len() implies #[trigger] before(
                        s,
                        next as int,
                        left@[x] as int,
                    ) by {
                        assert(before(s, next as int, left@[a as int] as int));
                        if x > a {
                            assert(before(s, left@[a as int] as int, left@[x] as int));
                            lemma_before_transitive(
                                s,
                                next as int,
                                left@[a as int] as int,
                                left@[x] as int,
                            );
                        }
                    }
                }
            }
            out.push(next);
            b = b + 1;
            proof {
                if functional::<T>() {
                    let rest = merged(s, l, right@.skip(b as int));
                    assert(merged(s, l, r) =~= seq![next] + rest);
                    assert(out@ + rest =~= done + merged(s, l, r));
                }
            }
        }
        proof {
            assert forall|i: int, j: int| 0 <= i < out@.len() && 0 <= j < out@.len() && i
                != j implies out@[i] != out@[j] by {
                if i < done.len() && j < done.len() {
                    assert(done[i] != done[j]);
                }
            }
            if ordered {
                assert forall|i: int, j: int| 0 <= i < j < out@.len() implies #[trigger] before(
                    s,
                    out@[i] as int,
                    out@[j] as int,
                ) by {
                    if j < done.len() {
                        assert(before(s, done[i] as int, done[j] as int));
                    }
                }
            }
        }
    }
    proof {
        assert(left@.skip(a as int) =~= Seq::empty());
        assert(right@.skip(b as int) =~= Seq::empty());
        assert(out@ + Seq::<usize>::empty() =~= out@);
    }
    out
}

} // verus!
