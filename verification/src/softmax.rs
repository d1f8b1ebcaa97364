//! Softmax along one dimension of a tensor.
//!
//! The elements whose indices differ in one dimension only form a lane. Softmax
//! subtracts the largest element of a lane, takes powers of e and divides by
//! their sum.
use crate::index::{lemma_cell, lemma_place};
use crate::scalar::{
    exp, functional, larger, less_than, lowest, minus, one, over, plus, times, zero, Scalar,
};
use crate::tensor::{
    flat_place, in_bounds, lemma_matrix_wf, lemma_place_in_bounds, lemma_place_splits,
    lemma_vector_volume, lemma_volume_split, volume, Tensor, TensorView,
};
use vstd::prelude::*;
use vstd::slice::slice_to_vec;

verus! {

/// The largest element of a lane, found by comparing from the first on.
pub open spec fn lane_max<T: Scalar>(lane: Seq<T>) -> T
    decreases lane.len(),
{
    if lane.len() == 0 {
        lowest()
    } else {
        let before = lane_max(lane.drop_last());
        if less_than(before, lane.last()) {
            lane.last()
        } else {
            before
        }
    }
}

/// The largest element of a vector.
pub open spec fn vector_max<T: Scalar>(v: Seq<T>) -> T
    decreases v.len(),
{
    if v.len() == 0 {
        lowest()
    } else {
        larger(vector_max(v.drop_last()), v.last())
    }
}

/// The elements added up from the first on.
pub open spec fn total<T: Scalar>(v: Seq<T>) -> T
    decreases v.len(),
{
    if v.len() == 0 {
        zero()
    } else {
        plus(total(v.drop_last()), v.last())
    }
}

/// The powers of e of the elements, each less `max`.
pub open spec fn shifted_exps<T: Scalar>(v: Seq<T>, max: T) -> Seq<T> {
    Seq::new(v.len(), |d: int| exp(minus(v[d], max)))
}

/// The elements divided by their sum.
pub open spec fn shares<T: Scalar>(v: Seq<T>) -> Seq<T> {
    Seq::new(v.len(), |d: int| over(v[d], total(v)))
}

/// Softmax of a lane.
pub open spec fn soft_lane<T: Scalar>(lane: Seq<T>) -> Seq<T> {
    shares(shifted_exps(lane, lane_max(lane)))
}

/// Softmax of a vector.
pub open spec fn soft_vector<T: Scalar>(v: Seq<T>) -> Seq<T> {
    shares(shifted_exps(v, vector_max(v)))
}

/// The lane that starts at place `start`, with `size` elements that are `stride`
/// apart.
pub open spec fn lane<T>(data: Seq<T>, start: int, size: nat, stride: int) -> Seq<T> {
    Seq::new(size, |d: int| data[start + d * stride])
}

/// Softmax of a block of `size` times `inner` elements, in which the lanes run
/// across: the element at place `q` belongs to lane `q % inner`.
pub open spec fn soft_block<T: Scalar>(
    data: Seq<T>,
    base: int,
    size: usize,
    inner: usize,
) -> Seq<T> {
    Seq::new(
        (size * inner) as nat,
        |q: int|
            soft_lane(lane(data, base + q % inner as int, size as nat, inner as int))[q
                / inner as int],
    )
}

/// The number of elements that follow one step along dimension `dim`.
pub open spec fn inner_size(shape: Seq<usize>, dim: int) -> nat {
    volume(shape.skip(dim + 1))
}

/// Softmax along dimension `dim`.
pub open spec fn softmaxed<T: Scalar>(t: TensorView<T>, dim: int) -> TensorView<T> {
    if t.ndim() == 1 {
        TensorView { shape: t.shape, data: soft_vector(t.data) }
    } else {
        let size = t.shape[dim];
        let inner = inner_size(t.shape, dim) as usize;
        let block = size * inner;
        TensorView {
            shape: t.shape,
            data: Seq::new(
                t.data.len(),
                |p: int|
                    soft_block(t.data, (p / block) * block, size, inner)[p % block],
            ),
        }
    }
}

proof fn lemma_lane_step<T>(data: Seq<T>, start: int, d: nat, stride: int)
    ensures
        lane(data, start, d + 1, stride).drop_last() == lane(data, start, d, stride),
        lane(data, start, d + 1, stride).last() == data[start + d * stride],
{
    assert(lane(data, start, d + 1, stride).drop_last() =~= lane(data, start, d, stride));
}

/// The lane maxima of a block: one for each of its `inner` lanes.
fn block_maxima<T: Scalar>(data: &[T], base: usize, size: usize, inner: usize) -> (r: Vec<T>)
    requires
        base + size * inner <= data@.len(),
    ensures
        r@.len() == inner,
        functional::<T>() ==> forall|i: int|
            0 <= i < inner ==> #[trigger] r@[i] == lane_max(
                lane(data@, base + i, size as nat, inner as int),
            ),
{
    let mut maxima: Vec<T> = Vec::with_capacity(inner);
    let mut k: usize = 0;
    while k < inner
        invariant
            k <= inner,
            maxima@.len() == k,
            functional::<T>() ==> forall|i: int|
                0 <= i < k ==> #[trigger] maxima@[i] == lane_max(
                    lane(data@, base + i, 0, inner as int),
                ),
        decreases inner - k,
    {
        maxima.push(lowest());
        k = k + 1;
    }
    let mut d: usize = 0;
    while d < size
        invariant
            d <= size,
            base + size * inner <= data@.len(),
            maxima@.len() == inner,
            functional::<T>() ==> forall|i: int|
                0 <= i < inner ==> #[trigger] maxima@[i] == lane_max(
                    lane(data@, base + i, d as nat, inner as int),
                ),
        decreases size - d,
    {
        let mut i: usize = 0;
        while i < inner
            invariant
                i <= inner,
                d < size,
                base + size * inner <= data@.len(),
                maxima@.len() == inner,
                functional::<T>() ==> forall|j: int|
                    0 <= j < i ==> #[trigger] maxima@[j] == lane_max(
                        lane(data@, base + j, (d + 1) as nat, inner as int),
                    ),
                functional::<T>() ==> forall|j: int|
                    i <= j < inner ==> #[trigger] maxima@[j] == lane_max(
                        lane(data@, base + j, d as nat, inner as int),
                    ),
            decreases inner - i,
        {
            let len: usize = data.len();
            proof {
                lemma_cell(d as int, i as int, size as int, inner as int);
                lemma_lane_step(data@, base + i, d as nat, inner as int);
            }
            let v: T = data[base + (d * inner + i)];
            if less_than(maxima[i], v) {
                maxima.set(i, v);
            }
            i = i + 1;
        }
        d = d + 1;
    }
    maxima
}

/// The powers of e of a block, each element less the maximum of its lane, and the
/// sum of the powers in each lane.
fn block_exps<T: Scalar>(
    data: &[T],
    base: usize,
    size: usize,
    inner: usize,
    maxima: &Vec<T>,
) -> (r: (Vec<T>, Vec<T>))
    requires
        base + size * inner <= data@.len(),
        maxima@.len() == inner,
    ensures
        r.0@.len() == size * inner,
        r.1@.len() == inner,
        functional::<T>() ==> forall|q: int|
            0 <= q < size * inner ==> #[trigger] r.0@[q] == exp(
                minus(data@[base + q], maxima@[q % inner as int]),
            ),
        functional::<T>() ==> forall|i: int|
            0 <= i < inner ==> #[trigger] r.1@[i] == total(
                shifted_exps(lane(data@, base + i, size as nat, inner as int), maxima@[i]),
            ),
{
    let mut exps: Vec<T> = Vec::new();
    let mut sums: Vec<T> = Vec::with_capacity(inner);
    let mut k: usize = 0;
    while k < inner
        invariant
            k <= inner,
            sums@.len() == k,
            functional::<T>() ==> forall|i: int|
                0 <= i < k ==> #[trigger] sums@[i] == total(
                    shifted_exps(lane(data@, base + i, 0, inner as int), maxima@[i]),
                ),
        decreases inner - k,
    {
        sums.push(zero());
        k = k + 1;
    }
    assert(0 * inner == 0);
    let mut d: usize = 0;
    while d < size
        invariant
            d <= size,
            base + size * inner <= data@.len(),
            maxima@.len() == inner,
            sums@.len() == inner,
            exps@.len() == d * inner,
            functional::<T>() ==> forall|q: int|
                0 <= q < exps@.len() ==> #[trigger] exps@[q] == exp(
                    minus(data@[base + q], maxima@[q % inner as int]),
                ),
            functional::<T>() ==> forall|i: int|
                0 <= i < inner ==> #[trigger] sums@[i] == total(
                    shifted_exps(lane(data@, base + i, d as nat, inner as int), maxima@[i]),
                ),
        decreases size - d,
    {
        let mut i: usize = 0;
        while i < inner
            invariant
                i <= inner,
                d < size,
                base + size * inner <= data@.len(),
                maxima@.len() == inner,
                sums@.len() == inner,
                exps@.len() == d * inner + i,
                functional::<T>() ==> forall|q: int|
                    0 <= q < exps@.len() ==> #[trigger] exps@[q] == exp(
                        minus(data@[base + q], maxima@[q % inner as int]),
                    ),
                functional::<T>() ==> forall|j: int|
                    0 <= j < i ==> #[trigger] sums@[j] == total(
                        shifted_exps(
                            lane(data@, base + j, (d + 1) as nat, inner as int),
                            maxima@[j],
                        ),
                    ),
                functional::<T>() ==> forall|j: int|
                    i <= j < inner ==> #[trigger] sums@[j] == total(
                        shifted_exps(lane(data@, base + j, d as nat, inner as int), maxima@[j]),
                    ),
            decreases inner - i,
        {
            let len: usize = data.len();
            let ghost shorter = shifted_exps(
                lane(data@, base + i, d as nat, inner as int),
                maxima@[i as int],
            );
            let ghost longer = shifted_exps(
                lane(data@, base + i, (d + 1) as nat, inner as int),
                maxima@[i as int],
            );
            proof {
                lemma_cell(d as int, i as int, size as int, inner as int);
                lemma_lane_step(data@, base + i, d as nat, inner as int);
                assert(longer.drop_last() =~= shorter);
            }
            let e: T = exp(minus(data[base + (d * inner + i)], maxima[i]));
            exps.push(e);
            let s: T = plus(sums[i], e);
            sums.set(i, s);
            i = i + 1;
        }
        assert((d + 1) * inner == d * inner + inner) by (nonlinear_arith);
        d = d + 1;
    }
    (exps, sums)
}

/// Appends softmax of a block to `out`.
fn push_soft_block<T: Scalar>(
    data: &[T],
    base: usize,
    size: usize,
    inner: usize,
    out: &mut Vec<T>,
)
    requires
        base + size * inner <= data@.len(),
    ensures
        final(out)@.len() == old(out)@.len() + size * inner,
        forall|p: int| 0 <= p < old(out)@.len() ==> final(out)@[p] == old(out)@[p],
        functional::<T>() ==> forall|q: int|
            0 <= q < size * inner ==> #[trigger] final(out)@[old(out)@.len() + q] == soft_block(
                data@,
                base as int,
                size,
                inner,
            )[q],
{
    let maxima = block_maxima(data, base, size, inner);
    let (exps, sums) = block_exps(data, base, size, inner, &maxima);
    let ghost start = out@.len();
    let ghost before = out@;
    let mut d: usize = 0;
    assert(0 * inner == 0);
    while d < size
        invariant
            d <= size,
            base + size * inner <= data@.len(),
            exps@.len() == size * inner,
            sums@.len() == inner,
            before == old(out)@,
            start == before.len(),
            out@.len() == start + d * inner,
            forall|p: int| 0 <= p < start ==> out@[p] == before[p],
            functional::<T>() ==> forall|q: int|
                0 <= q < d * inner ==> #[trigger] out@[start + q] == over(
                    exps@[q],
                    sums@[q % inner as int],
                ),
        decreases size - d,
    {
        let mut i: usize = 0;
        while i < inner
            invariant
                i <= inner,
                d < size,
                exps@.len() == size * inner,
                sums@.len() == inner,
                start == before.len(),
                out@.len() == start + d * inner + i,
                forall|p: int| 0 <= p < start ==> out@[p] == before[p],
                functional::<T>() ==> forall|q: int|
                    0 <= q < d * inner + i ==> #[trigger] out@[start + q] == over(
                        exps@[q],
                        sums@[q % inner as int],
                    ),
            decreases inner - i,
        {
            let len: usize = exps.len();
            proof {
                lemma_cell(d as int, i as int, size as int, inner as int);
            }
            out.push(over(exps[d * inner + i], sums[i]));
            i = i + 1;
        }
        assert((d + 1) * inner == d * inner + inner) by (nonlinear_arith);
        d = d + 1;
    }
    proof {
        if functional::<T>() {
            assert forall|q: int| 0 <= q < size * inner implies #[trigger] out@[start + q]
                == soft_block(data@, base as int, size, inner)[q] by {
                lemma_place(q, size as int, inner as int);
                let i = q % inner as int;
                let e = q / inner as int;
                let l = lane(data@, base + i, size as nat, inner as int);
                assert(l[e] == data@[base + q]);
                assert(maxima@[i] == lane_max(l));
                assert(sums@[i] == total(shifted_exps(l, lane_max(l))));
                assert(exps@[q] == shifted_exps(l, lane_max(l))[e]);
            }
        }
    }
}

fn softmax_vector<T: Scalar>(v: &[T]) -> (r: Vec<T>)
    ensures
        r@.len() == v@.len(),
        functional::<T>() ==> r@ == soft_vector(v@),
{
    let mut max: T = lowest();
    let mut i: usize = 0;
    assert(v@.take(0) =~= Seq::empty());
    while i < v.len()
        invariant
            i <= v@.len(),
            functional::<T>() ==> max == vector_max(v@.take(i as int)),
        decreases v@.len() - i,
    {
        assert(v@.take(i + 1).drop_last() =~= v@.take(i as int));
        max = larger(max, v[i]);
        i = i + 1;
    }
    assert(v@.take(i as int) =~= v@);
    let ghost expected = shifted_exps(v@, vector_max(v@));
    let mut exps: Vec<T> = Vec::with_capacity(v.len());
    let mut sum: T = zero();
    let mut k: usize = 0;
    while k < v.len()
        invariant
            k <= v@.len(),
            exps@.len() == k,
            expected == shifted_exps(v@, vector_max(v@)),
            functional::<T>() ==> max == vector_max(v@),
            functional::<T>() ==> exps@ == expected.take(k as int),
            functional::<T>() ==> sum == total(expected.take(k as int)),
        decreases v@.len() - k,
    {
        let e: T = exp(minus(v[k], max));
        assert(expected.take(k + 1).drop_last() =~= expected.take(k as int));
        exps.push(e);
        sum = plus(sum, e);
        k = k + 1;
        assert(functional::<T>() ==> exps@ =~= expected.take(k as int));
    }
    assert(expected.take(k as int) =~= expected);
    let mut r: Vec<T> = Vec::with_capacity(v.len());
    let mut j: usize = 0;
    while j < exps.len()
        invariant
            j <= exps@.len(),
            r@.len() == j,
            functional::<T>() ==> forall|p: int|
                0 <= p < j ==> #[trigger] r@[p] == over(exps@[p], sum),
        decreases exps@.len() - j,
    {
        r.push(over(exps[j], sum));
        j = j + 1;
    }
    assert(functional::<T>() ==> r@ =~= soft_vector(v@));
    r
}

proof fn lemma_blocks(shape: Seq<usize>, dim: int)
    requires
        0 <= dim < shape.len(),
        volume(shape) <= usize::MAX,
        volume(shape) > 0,
    ensures
        shape[dim] > 0,
        0 < inner_size(shape, dim) <= usize::MAX,
        0 < shape[dim] * inner_size(shape, dim) <= usize::MAX,
        volume(shape) == volume(shape.take(dim)) * (shape[dim] * inner_size(shape, dim)),
{
    let (a, b) = (shape.take(dim), shape.skip(dim + 1));
    let n = shape[dim];
    lemma_volume_split(a, seq![n] + b);
    lemma_volume_split(seq![n], b);
    lemma_vector_volume(n);
    assert(a + (seq![n] + b) =~= shape);
    let (x, y, z) = (volume(a), n as nat, volume(b));
    assert(x * (y * z) == volume(shape));
    assert(x > 0 && y > 0 && z > 0 && z <= x * (y * z) && y * z <= x * (y * z) && y * z > 0)
        by (nonlinear_arith)
        requires
            x * (y * z) > 0,
    ;
}

impl<T: Scalar> Tensor<T> {
    /// Softmax along dimension `dim`.
    pub fn softmax(&self, dim: usize) -> (r: Tensor<T>)
        requires
            self@.wf(),
            dim < self@.ndim(),
        ensures
            r@.wf(),
            r@.shape == self@.shape,
            functional::<T>() ==> r@ == softmaxed(self@, dim as int),
    {
        let data = self.data();
        let len: usize = data.len();
        if self.ndim() == 1 {
            return Tensor::new(slice_to_vec(self.shape()), softmax_vector(data));
        }
        let mut out: Vec<T> = Vec::with_capacity(len);
        if len > 0 {
            proof {
                lemma_blocks(self@.shape, dim as int);
            }
            let shape = self.shape();
            let size: usize = shape[dim];
            let rest = vstd::slice::slice_subrange(shape, dim + 1, shape.len());
            assert(rest@ =~= self@.shape.skip(dim + 1));
            let inner: usize = crate::tensor::shape_volume(rest);
            let block: usize = size * inner;
            let ghost outer = volume(self@.shape.take(dim as int)) as int;
            let ghost expected = softmaxed(self@, dim as int);
            let mut o: usize = 0;
            let mut base: usize = 0;
            assert(0 * block == 0);
            while base < len
                invariant
                    data@ == self@.data,
                    len == data@.len(),
                    len == outer * block,
                    block == size * inner,
                    block > 0,
                    o <= outer,
                    base <= len,
                    dim < self@.ndim(),
                    base == o * block,
                    out@.len() == base,
                    self@.ndim() != 1,
                    size == self@.shape[dim as int],
                    inner == inner_size(self@.shape, dim as int),
                    expected == softmaxed(self@, dim as int),
                    functional::<T>() ==> forall|p: int|
                        0 <= p < base ==> #[trigger] out@[p] == expected.data[p],
                decreases len - base,
            {
                proof {
                    assert(o < outer) by (nonlinear_arith)
                        requires
                            o * block < outer * block,
                            block > 0,
                    ;
                    assert((o + 1) * block == o * block + block) by (nonlinear_arith);
                    assert((o + 1) * block <= outer * block) by (nonlinear_arith)
                        requires
                            o + 1 <= outer,
                            block > 0,
                    ;
                    assert(o <= o * block) by (nonlinear_arith)
                        requires
                            block > 0,
                    ;
                }
                let ghost before = out@;
                push_soft_block(data, base, size, inner, &mut out);
                proof {
                    if functional::<T>() {
                        assert forall|p: int| 0 <= p < base + block implies #[trigger] out@[p]
                            == expected.data[p] by {
                            if p < base {
                                assert(out@[p] == before[p]);
                            } else {
                                let q = p - base;
                                lemma_cell(o as int, q, outer, block as int);
                                assert(out@[base + q] == soft_block(
                                    data@,
                                    base as int,
                                    size,
                                    inner,
                                )[q]);
                            }
                        }
                    }
                }
                base = base + block;
                o = o + 1;
            }
        }
        assert(functional::<T>() ==> out@ =~= softmaxed(self@, dim as int).data);
        Tensor::new(slice_to_vec(self.shape()), out)
    }
}

/// Sums grow from the first element on: one more element is added last, and a sum of
/// nothing is zero.
pub proof fn sums_grow_by_the_last<T: Scalar>(v: Seq<T>, a: T)
    ensures
        total(v.push(a)) == plus(total(v), a),
        total(Seq::<T>::empty()) == zero::<T>(),
{
    assert(v.push(a).drop_last() =~= v);
}

/// The ratio of two shares is e to the difference of the elements, whatever the other
/// elements are, wherever a common divisor and a common shift cancel.
pub proof fn ratio_of_shares<T: Scalar>(v: Seq<T>, d: int, e: int)
    requires
        0 <= d < v.len(),
        0 <= e < v.len(),
        forall|a: T, b: T, s: T|
            s != zero::<T>() ==> #[trigger] over(over(a, s), over(b, s)) == over(a, b),
        forall|a: T, b: T, m: T| #[trigger] minus(minus(a, m), minus(b, m)) == minus(a, b),
        forall|a: T, b: T| #[trigger] over(exp(a), exp(b)) == exp(minus(a, b)),
    ensures
        soft_lane(v).len() == v.len(),
        soft_vector(v).len() == v.len(),
        total(shifted_exps(v, lane_max(v))) != zero::<T>() ==> over(
            soft_lane(v)[d],
            soft_lane(v)[e],
        ) == exp(minus(v[d], v[e])),
        total(shifted_exps(v, vector_max(v))) != zero::<T>() ==> over(
            soft_vector(v)[d],
            soft_vector(v)[e],
        ) == exp(minus(v[d], v[e])),
{
    let (m, n) = (lane_max(v), vector_max(v));
    assert(over(exp(minus(v[d], m)), exp(minus(v[e], m))) == exp(
        minus(minus(v[d], m), minus(v[e], m)),
    ));
    assert(over(exp(minus(v[d], n)), exp(minus(v[e], n))) == exp(
        minus(minus(v[d], n), minus(v[e], n)),
    ));
}

proof fn lemma_total_of_quotients<T: Scalar>(v: Seq<T>, s: T)
    requires
        over(zero(), s) == zero::<T>(),
        forall|a: T, b: T| #[trigger] over(plus(a, b), s) == plus(over(a, s), over(b, s)),
    ensures
        total(Seq::new(v.len(), |d: int| over(v[d], s))) == over(total(v), s),
    decreases v.len(),
{
    let q = Seq::new(v.len(), |d: int| over(v[d], s));
    if v.len() > 0 {
        let w = v.drop_last();
        lemma_total_of_quotients(w, s);
        assert(q.drop_last() =~= Seq::new(w.len(), |d: int| over(w[d], s)));
        assert(q.last() == over(v.last(), s));
        assert(over(plus(total(w), v.last()), s) == plus(over(total(w), s), over(v.last(), s)));
    }
}

/// The shares add up to one, wherever dividing can be done summand by summand and a
/// sum divided by itself is one.
pub proof fn shares_add_up_to_one<T: Scalar>(v: Seq<T>)
    requires
        over(zero(), total(v)) == zero::<T>(),
        over(total(v), total(v)) == one::<T>(),
        forall|a: T, b: T| #[trigger]
            over(plus(a, b), total(v)) == plus(over(a, total(v)), over(b, total(v))),
    ensures
        total(shares(v)) == one::<T>(),
{
    lemma_total_of_quotients(v, total(v));
    assert(shares(v) =~= Seq::new(v.len(), |d: int| over(v[d], total(v))));
}

/// Whether `a` is met when the largest of `v` is looked for.
pub open spec fn met<T: Scalar>(v: Seq<T>, a: T) -> bool {
    v.contains(a) || a == lowest::<T>()
}

/// Whether the numbers that are met are in order.
pub open spec fn in_order_with_the_lowest<T: Scalar>(v: Seq<T>) -> bool {
    &&& forall|a: T, b: T|
        #![trigger less_than(a, b)]
        met(v, a) && met(v, b) && less_than(a, b) ==> !less_than(b, a)
    &&& forall|a: T, b: T, c: T|
        #![trigger less_than(a, c), less_than(a, b)]
        #![trigger less_than(a, c), less_than(b, c)]
        met(v, a) && met(v, b) && met(v, c) && less_than(a, c) ==> less_than(a, b) || less_than(
            b,
            c,
        )
}

/// What is taken off before powers of e are taken is the lowest number or an element, and
/// no smaller than any element, wherever these are in order.
pub proof fn largest_is_no_smaller<T: Scalar>(v: Seq<T>)
    requires
        in_order_with_the_lowest(v),
    ensures
        met(v, lane_max(v)),
        forall|d: int| 0 <= d < v.len() ==> !less_than(lane_max(v), #[trigger] v[d]),
    decreases v.len(),
{
    if v.len() > 0 {
        let w = v.drop_last();
        assert forall|a: T| met(w, a) implies #[trigger] met(v, a) by {
            if w.contains(a) {
                let k = w.index_of(a);
                assert(v[k] == a);
            }
        }
        assert(in_order_with_the_lowest(w));
        largest_is_no_smaller(w);
        let (before, last) = (lane_max(w), v.last());
        assert(v.contains(last));
        assert(met(v, before) && met(v, last));
        assert forall|d: int| 0 <= d < v.len() implies !less_than(
            lane_max(v),
            #[trigger] v[d],
        ) by {
            assert(met(v, v[d]));
            if d < v.len() - 1 {
                assert(w[d] == v[d]);
                if less_than(before, last) && less_than(last, v[d]) {
                    assert(less_than(last, before) || less_than(before, v[d]));
                }
            } else if less_than(last, last) {
                assert(!less_than(last, last));
            }
        }
    }
}

/// The largest of a vector grows from the lowest number by the larger of two, and is no
/// smaller than any element, wherever the larger of two numbers is below none that one of
/// the two is not below.
pub proof fn largest_of_a_vector_is_no_smaller<T: Scalar>(v: Seq<T>, d: int)
    requires
        0 <= d < v.len(),
        !less_than(v[d], v[d]),
        forall|a: T, b: T|
            #![trigger larger(a, b)]
            !less_than(a, v[d]) || !less_than(b, v[d]) ==> !less_than(larger(a, b), v[d]),
    ensures
        !less_than(vector_max(v), v[d]),
    decreases v.len(),
{
    if d < v.len() - 1 {
        assert(v.drop_last()[d] == v[d]);
        largest_of_a_vector_is_no_smaller(v.drop_last(), d);
    }
    let (a, b) = (vector_max(v.drop_last()), v.last());
    assert(!less_than(a, v[d]) || !less_than(b, v[d]));
    assert(vector_max(v) == larger(a, b));
}

/// Softmax along the columns of a matrix: each element gets its share in its column.
pub proof fn softmax_of_columns<T: Scalar>(t: TensorView<T>, i: int, j: int)
    requires
        t.wf(),
        t.ndim() == 2,
        0 <= i < t.shape[0],
        0 <= j < t.shape[1],
    ensures
        softmaxed(t, 0).at(i, j) == soft_lane(
            Seq::new(t.shape[0] as nat, |r: int| t.at(r, j)),
        )[i],
{
    let (m, n) = (t.shape[0], t.shape[1]);
    lemma_matrix_wf(t);
    lemma_vector_volume(n);
    assert(t.shape.skip(1) =~= seq![n]);
    let p = i * n + j;
    lemma_cell(i, j, m as int, n as int);
    assert(p / (m * n) == 0 && p % (m * n) == p) by {
        vstd::arithmetic::div_mod::lemma_small_mod(p as nat, (m * n) as nat);
        vstd::arithmetic::div_mod::lemma_basic_div(p, m * n);
    }
    assert(0 * (m * n) == 0);
    let column = Seq::new(m as nat, |r: int| t.at(r, j));
    assert(lane(t.data, 0 + p % n as int, m as nat, n as int) =~= column) by {
        assert forall|r: int| 0 <= r < m implies #[trigger] lane(
            t.data,
            0 + p % n as int,
            m as nat,
            n as int,
        )[r] == column[r] by {
            assert(j + r * n == r * n + j);
        }
    }
}

/// Softmax along the rows of a matrix: each element gets its share in its row.
pub proof fn softmax_of_rows<T: Scalar>(t: TensorView<T>, i: int, j: int)
    requires
        t.wf(),
        t.ndim() == 2,
        0 <= i < t.shape[0],
        0 <= j < t.shape[1],
    ensures
        softmaxed(t, 1).at(i, j) == soft_lane(
            Seq::new(t.shape[1] as nat, |c: int| t.at(i, c)),
        )[j],
{
    let (m, n) = (t.shape[0], t.shape[1]);
    lemma_matrix_wf(t);
    assert(t.shape.skip(2) =~= Seq::empty());
    assert(volume(Seq::<usize>::empty()) == 1);
    let p = i * n + j;
    lemma_cell(i, j, m as int, n as int);
    assert(n * 1usize == n);
    assert(j % 1 == 0 && j / 1 == j);
    let row = Seq::new(n as nat, |c: int| t.at(i, c));
    assert(lane(t.data, i * n + j % 1usize as int, n as nat, 1usize as int) =~= row);
    assert(p / n as int == i && p % n as int == j);
    assert(soft_block(t.data, i * n, n, 1)[j] == soft_lane(
        lane(t.data, i * n + j % 1usize as int, n as nat, 1usize as int),
    )[j]);
}

/// Softmax goes lane by lane, along any dimension: each element gets its share among the
/// elements whose indices differ from its own in that dimension alone.
pub proof fn softmax_goes_lane_by_lane<T: Scalar>(
    t: TensorView<T>,
    dim: int,
    indices: Seq<usize>,
)
    requires
        t.wf(),
        t.ndim() > 1,
        t.data.len() <= usize::MAX,
        0 <= dim < t.ndim(),
        in_bounds(t.shape, indices),
    ensures
        softmaxed(t, dim).shape == t.shape,
        softmaxed(t, dim).data[flat_place(t.shape, indices)] == soft_lane(
            Seq::new(
                t.shape[dim] as nat,
                |d: int| t.data[flat_place(t.shape, indices.update(dim, d as usize))],
            ),
        )[indices[dim] as int],
{
    let shape = t.shape;
    let (size, rest) = (shape[dim] as int, indices.skip(dim + 1));
    let inner = volume(shape.skip(dim + 1)) as int;
    let front = shape.take(dim);
    let outer = flat_place(front, indices.take(dim));
    let low = flat_place(shape.skip(dim + 1), rest);
    lemma_place_in_bounds(front, indices.take(dim));
    lemma_place_in_bounds(shape.skip(dim + 1), rest);
    lemma_volume_split(shape.take(dim + 1), shape.skip(dim + 1));
    assert(shape.take(dim + 1) + shape.skip(dim + 1) =~= shape);
    assert(shape.take(dim + 1).drop_last() =~= front);
    let above = volume(front) as int;
    assert(volume(shape.take(dim + 1)) == above * size);
    let k = indices[dim] as int;
    assert(0 <= k < size);
    lemma_cell(outer, k, above, size);
    assert(inner <= above * size * inner) by (nonlinear_arith)
        requires
            above * size >= 1,
            inner >= 0,
    ;
    lemma_lane_place(shape, indices, dim, k);
    assert(indices.update(dim, k as usize) =~= indices);
    let block = size * inner;
    let q = k * inner + low;
    lemma_cell(k, low, size, inner);
    assert((outer * size + k) * inner + low == outer * block + q) by (nonlinear_arith)
        requires
            block == size * inner,
            q == k * inner + low,
    ;
    lemma_cell(outer, q, above, block);
    assert(above * block == above * size * inner) by (nonlinear_arith)
        requires
            block == size * inner,
    ;
    let wanted = Seq::new(
        shape[dim] as nat,
        |d: int| t.data[flat_place(shape, indices.update(dim, d as usize))],
    );
    let found = lane(t.data, outer * block + low, shape[dim] as nat, inner);
    assert forall|d: int| 0 <= d < size implies found[d] == wanted[d] by {
        lemma_lane_place(shape, indices, dim, d);
        assert((outer * size + d) * inner + low == outer * block + low + d * inner)
            by (nonlinear_arith)
            requires
                block == size * inner,
        ;
    }
    assert(found =~= wanted);
    assert(soft_block(t.data, outer * block, shape[dim], inner as usize)[q] == soft_lane(found)[k]);
}

proof fn lemma_lane_place(shape: Seq<usize>, indices: Seq<usize>, dim: int, d: int)
    requires
        0 <= dim < shape.len(),
        indices.len() == shape.len(),
        0 <= d <= usize::MAX,
    ensures
        flat_place(shape, indices.update(dim, d as usize)) == (flat_place(
            shape.take(dim),
            indices.take(dim),
        ) * shape[dim] + d) * volume(shape.skip(dim + 1)) + flat_place(
            shape.skip(dim + 1),
            indices.skip(dim + 1),
        ),
{
    let next = indices.update(dim, d as usize);
    lemma_place_splits(shape, next, dim + 1);
    assert(next.skip(dim + 1) =~= indices.skip(dim + 1));
    let (s, x) = (shape.take(dim + 1), next.take(dim + 1));
    assert(s.drop_last() =~= shape.take(dim));
    assert(x.drop_last() =~= indices.take(dim));
    assert(s.last() == shape[dim] && x.last() == d);
}

/// Softmax of a vector gives each element its share of the whole.
pub proof fn softmax_of_a_vector<T: Scalar>(t: TensorView<T>, dim: int)
    requires
        t.ndim() == 1,
    ensures
        softmaxed(t, dim).shape == t.shape,
        softmaxed(t, dim).data == soft_vector(t.data),
{
}

/// The largest is taken off before powers of e are taken: there is one number, the lowest
/// or an element, that no element is above, and each share is the power of e of the element
/// less that number over the sum of these powers. So no power is one of a number above
/// zero, wherever the elements are in order.
pub proof fn largest_is_taken_off<T: Scalar>(v: Seq<T>)
    requires
        in_order_with_the_lowest(v),
    ensures
        exists|m: T|
            {
                &&& #[trigger] met(v, m)
                &&& forall|d: int| 0 <= d < v.len() ==> !less_than(m, #[trigger] v[d])
                &&& forall|d: int|
                    0 <= d < v.len() ==> #[trigger] soft_lane(v)[d] == over(
                        exp(minus(v[d], m)),
                        total(Seq::new(v.len(), |e: int| exp(minus(v[e], m)))),
                    )
            },
{
    largest_is_no_smaller(v);
    let m = lane_max(v);
    assert(shifted_exps(v, m) =~= Seq::new(v.len(), |e: int| exp(minus(v[e], m))));
    assert(met(v, m));
}

/// Whether no element is above `m`.
pub open spec fn none_above<T: Scalar>(v: Seq<T>, m: T) -> bool {
    forall|d: int| 0 <= d < v.len() ==> !less_than(m, #[trigger] v[d])
}

/// The same holds of a vector, wherever the larger of two numbers is below none that one of
/// the two is not below.
pub proof fn largest_of_a_vector_is_taken_off<T: Scalar>(v: Seq<T>)
    requires
        forall|d: int| 0 <= d < v.len() ==> !less_than(#[trigger] v[d], v[d]),
        forall|a: T, b: T, d: int|
            #![trigger larger(a, b), v[d]]
            0 <= d < v.len() && (!less_than(a, v[d]) || !less_than(b, v[d])) ==> !less_than(
                larger(a, b),
                v[d],
            ),
    ensures
        exists|m: T|
            {
                &&& #[trigger] none_above(v, m)
                &&& soft_vector(v) == shares(
                    Seq::new(v.len(), |e: int| exp(minus(v[e], m))),
                )
            },
{
    let m = vector_max(v);
    assert(shifted_exps(v, m) =~= Seq::new(v.len(), |e: int| exp(minus(v[e], m))));
    assert forall|d: int| 0 <= d < v.len() implies !less_than(m, #[trigger] v[d]) by {
        largest_of_a_vector_is_no_smaller(v, d);
    }
    assert(none_above(v, m));
}

/// Each share times the sum of all is what it is a share of, wherever multiplying undoes
/// dividing.
pub proof fn sharing_undone<T: Scalar>(v: Seq<T>, d: int)
    requires
        0 <= d < v.len(),
        times(over(v[d], total(v)), total(v)) == v[d],
    ensures
        shares(v).len() == v.len(),
        times(shares(v)[d], total(v)) == v[d],
{
}

} // verus!
