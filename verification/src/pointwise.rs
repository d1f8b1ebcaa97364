//! Arithmetic element by element.
use crate::index::lemma_cell;
use crate::scalar::{exp, functional, negated, one, over, plus, times, zero, Scalar};
use crate::tensor::{lemma_matrix_wf, lemma_vector_volume, same_shape, volume, Tensor, TensorView};
use vstd::prelude::*;
use vstd::slice::slice_to_vec;

verus! {

/// Whether `a` is a row that fits the rows of the matrix `b`: a vector or a matrix
/// of one row, as wide as `b`.
pub open spec fn is_row_for<T>(a: TensorView<T>, b: TensorView<T>) -> bool {
    &&& b.ndim() == 2
    &&& (a.shape == seq![b.shape[1]] || a.shape == seq![1usize, b.shape[1]])
}

/// Whether `a` and `b` can be added: they have one shape, one of them is a single
/// number, or `a` is a row for the matrix `b`.
pub open spec fn addable<T>(a: TensorView<T>, b: TensorView<T>) -> bool {
    ||| a.shape == b.shape
    ||| a.data.len() == 1
    ||| b.data.len() == 1
    ||| is_row_for(a, b)
}

/// The sum of `a` and `b`: a single number is added to every element of the other
/// tensor, a row to every row of the matrix.
pub open spec fn sum<T: Scalar>(a: TensorView<T>, b: TensorView<T>) -> TensorView<T> {
    if a.shape == b.shape {
        TensorView {
            shape: a.shape,
            data: Seq::new(a.data.len(), |p: int| plus(a.data[p], b.data[p])),
        }
    } else if a.data.len() == 1 {
        TensorView {
            shape: b.shape,
            data: Seq::new(b.data.len(), |p: int| plus(a.data[0], b.data[p])),
        }
    } else if b.data.len() == 1 {
        TensorView {
            shape: a.shape,
            data: Seq::new(a.data.len(), |p: int| plus(a.data[p], b.data[0])),
        }
    } else {
        TensorView {
            shape: b.shape,
            data: Seq::new(
                b.data.len(),
                |p: int| plus(a.data[p % b.shape[1] as int], b.data[p]),
            ),
        }
    }
}

/// The shape of the sum of `a` and `b`.
pub open spec fn sum_shape<T>(a: TensorView<T>, b: TensorView<T>) -> Seq<usize> {
    if a.shape == b.shape {
        a.shape
    } else if a.data.len() == 1 {
        b.shape
    } else if b.data.len() == 1 {
        a.shape
    } else {
        b.shape
    }
}

/// Every element times `factor`.
pub open spec fn scaled<T: Scalar>(t: TensorView<T>, factor: T) -> TensorView<T> {
    TensorView {
        shape: t.shape,
        data: Seq::new(t.data.len(), |p: int| times(t.data[p], factor)),
    }
}

/// The products of the elements of `a` and `b` that stand at the same place.
pub open spec fn hadamard<T: Scalar>(a: TensorView<T>, b: TensorView<T>) -> TensorView<T> {
    TensorView {
        shape: a.shape,
        data: Seq::new(a.data.len(), |p: int| times(a.data[p], b.data[p])),
    }
}

/// x times the logistic function of x: `x * (1 / (1 + exp(-x)))`.
pub open spec fn silu_of<T: Scalar>(x: T) -> T {
    times(x, over(one(), plus(one(), exp(negated(x)))))
}

/// SiLU of every element.
pub open spec fn activated<T: Scalar>(t: TensorView<T>) -> TensorView<T> {
    TensorView { shape: t.shape, data: Seq::new(t.data.len(), |p: int| silu_of(t.data[p])) }
}

impl<T: Scalar> Tensor<T> {
    /// The sum of this tensor and `other`.
    pub fn add(&self, other: &Tensor<T>) -> (r: Tensor<T>)
        requires
            self@.wf(),
            other@.wf(),
            addable(self@, other@),
        ensures
            r@.wf(),
            r@.shape == sum_shape(self@, other@),
            functional::<T>() ==> r@ == sum(self@, other@),
    {
        let a = self.data();
        let b = other.data();
        let same: bool = same_shape(self.shape(), other.shape());
        if same {
            let data = zip_plus(a, b);
            assert(functional::<T>() ==> data@ =~= sum(self@, other@).data);
            return Tensor::new(slice_to_vec(self.shape()), data);
        }
        if a.len() == 1 {
            let data = plus_right(a[0], b);
            assert(functional::<T>() ==> data@ =~= sum(self@, other@).data);
            return Tensor::new(slice_to_vec(other.shape()), data);
        }
        if b.len() == 1 {
            let data = plus_left(a, b[0]);
            assert(functional::<T>() ==> data@ =~= sum(self@, other@).data);
            return Tensor::new(slice_to_vec(self.shape()), data);
        }
        let m: usize = other.shape()[0];
        let n: usize = other.shape()[1];
        proof {
            lemma_matrix_wf(other@);
            lemma_vector_volume(n);
            if self@.shape != seq![n] {
                lemma_matrix_wf(self@);
                assert(1 * n == n);
            }
            assert(0 * n == 0);
        }
        let mut data: Vec<T> = Vec::with_capacity(b.len());
        let mut i: usize = 0;
        while i < m
            invariant
                i <= m,
                a@.len() == n,
                b@.len() == m * n,
                data@.len() == i * n,
                functional::<T>() ==> forall|p: int|
                    0 <= p < data@.len() ==> #[trigger] data@[p] == plus(a@[p % n as int], b@[p]),
            decreases m - i,
        {
            let mut j: usize = 0;
            while j < n
                invariant
                    i < m,
                    j <= n,
                    a@.len() == n,
                    b@.len() == m * n,
                    data@.len() == i * n + j,
                    functional::<T>() ==> forall|p: int|
                        0 <= p < data@.len() ==> #[trigger] data@[p] == plus(
                            a@[p % n as int],
                            b@[p],
                        ),
                decreases n - j,
            {
                let size: usize = b.len();
                proof {
                    lemma_cell(i as int, j as int, m as int, n as int);
                }
                data.push(plus(a[j], b[i * n + j]));
                j = j + 1;
            }
            assert((i + 1) * n == i * n + n) by (nonlinear_arith);
            i = i + 1;
        }
        assert(functional::<T>() ==> data@ =~= sum(self@, other@).data);
        Tensor::new(slice_to_vec(other.shape()), data)
    }

    /// Every element times `scalar`.
    pub fn mul_scalar(&self, scalar: T) -> (r: Tensor<T>)
        requires
            self@.wf(),
        ensures
            r@.wf(),
            r@.shape == self@.shape,
            functional::<T>() ==> r@ == scaled(self@, scalar),
    {
        let a = self.data();
        let mut data: Vec<T> = Vec::with_capacity(a.len());
        let mut i: usize = 0;
        while i < a.len()
            invariant
                i <= a@.len(),
                data@.len() == i,
                functional::<T>() ==> forall|p: int|
                    0 <= p < i ==> #[trigger] data@[p] == times(a@[p], scalar),
            decreases a@.len() - i,
        {
            data.push(times(a[i], scalar));
            i = i + 1;
        }
        assert(functional::<T>() ==> data@ =~= scaled(self@, scalar).data);
        Tensor::new(slice_to_vec(self.shape()), data)
    }

    /// The products of the elements of this tensor and `other`, place by place.
    pub fn mul_elementwise(&self, other: &Tensor<T>) -> (r: Tensor<T>)
        requires
            self@.wf(),
            other@.wf(),
            self@.shape == other@.shape,
        ensures
            r@.wf(),
            r@.shape == self@.shape,
            functional::<T>() ==> r@ == hadamard(self@, other@),
    {
        let a = self.data();
        let b = other.data();
        let mut data: Vec<T> = Vec::with_capacity(a.len());
        let mut i: usize = 0;
        while i < a.len()
            invariant
                i <= a@.len(),
                a@.len() == b@.len(),
                data@.len() == i,
                functional::<T>() ==> forall|p: int|
                    0 <= p < i ==> #[trigger] data@[p] == times(a@[p], b@[p]),
            decreases a@.len() - i,
        {
            data.push(times(a[i], b[i]));
            i = i + 1;
        }
        assert(functional::<T>() ==> data@ =~= hadamard(self@, other@).data);
        Tensor::new(slice_to_vec(self.shape()), data)
    }

    /// SiLU of every element.
    pub fn silu(&self) -> (r: Tensor<T>)
        requires
            self@.wf(),
        ensures
            r@.wf(),
            r@.shape == self@.shape,
            functional::<T>() ==> r@ == activated(self@),
    {
        let a = self.data();
        let mut data: Vec<T> = Vec::with_capacity(a.len());
        let mut i: usize = 0;
        while i < a.len()
            invariant
                i <= a@.len(),
                data@.len() == i,
                functional::<T>() ==> forall|p: int|
                    0 <= p < i ==> #[trigger] data@[p] == silu_of(a@[p]),
            decreases a@.len() - i,
        {
            let x: T = a[i];
            let sigmoid: T = over(one(), plus(one(), exp(negated(x))));
            data.push(times(x, sigmoid));
            i = i + 1;
        }
        assert(functional::<T>() ==> data@ =~= activated(self@).data);
        Tensor::new(slice_to_vec(self.shape()), data)
    }
}

fn zip_plus<T: Scalar>(a: &[T], b: &[T]) -> (r: Vec<T>)
    requires
        a@.len() == b@.len(),
    ensures
        r@.len() == a@.len(),
        functional::<T>() ==> r@ == Seq::new(a@.len(), |p: int| plus(a@[p], b@[p])),
{
    let mut r: Vec<T> = Vec::with_capacity(a.len());
    let mut i: usize = 0;
    while i < a.len()
        invariant
            i <= a@.len(),
            a@.len() == b@.len(),
            r@.len() == i,
            functional::<T>() ==> forall|p: int|
                0 <= p < i ==> #[trigger] r@[p] == plus(a@[p], b@[p]),
        decreases a@.len() - i,
    {
        r.push(plus(a[i], b[i]));
        i = i + 1;
    }
    assert(functional::<T>() ==> r@ =~= Seq::new(a@.len(), |p: int| plus(a@[p], b@[p])));
    r
}

fn plus_right<T: Scalar>(s: T, b: &[T]) -> (r: Vec<T>)
    ensures
        r@.len() == b@.len(),
        functional::<T>() ==> r@ == Seq::new(b@.len(), |p: int| plus(s, b@[p])),
{
    let mut r: Vec<T> = Vec::with_capacity(b.len());
    let mut i: usize = 0;
    while i < b.len()
        invariant
            i <= b@.len(),
            r@.len() == i,
            functional::<T>() ==> forall|p: int| 0 <= p < i ==> #[trigger] r@[p] == plus(s, b@[p]),
        decreases b@.len() - i,
    {
        r.push(plus(s, b[i]));
        i = i + 1;
    }
    assert(functional::<T>() ==> r@ =~= Seq::new(b@.len(), |p: int| plus(s, b@[p])));
    r
}

fn plus_left<T: Scalar>(a: &[T], s: T) -> (r: Vec<T>)
    ensures
        r@.len() == a@.len(),
        functional::<T>() ==> r@ == Seq::new(a@.len(), |p: int| plus(a@[p], s)),
{
    let mut r: Vec<T> = Vec::with_capacity(a.len());
    let mut i: usize = 0;
    while i < a.len()
        invariant
            i <= a@.len(),
            r@.len() == i,
            functional::<T>() ==> forall|p: int| 0 <= p < i ==> #[trigger] r@[p] == plus(a@[p], s),
        decreases a@.len() - i,
    {
        r.push(plus(a[i], s));
        i = i + 1;
    }
    assert(functional::<T>() ==> r@ =~= Seq::new(a@.len(), |p: int| plus(a@[p], s)));
    r
}

/// SiLU of `a` is `a` over one and e to the negative of `a`: multiplying by these gives
/// `a` back, wherever multiplying undoes dividing.
pub proof fn silu_undone<T: Scalar>(a: T)
    requires
        ({
            let d = plus(one(), exp(negated(a)));
            times(times(a, over(one(), d)), d) == a
        }),
    ensures
        times(silu_of(a), plus(one(), exp(negated(a)))) == a,
{
}

/// A tensor of the given shape with the same number everywhere.
pub open spec fn filled<T>(a: T, shape: Seq<usize>) -> TensorView<T> {
    TensorView { shape, data: Seq::new(volume(shape), |p: int| a) }
}

/// Adding goes place by place, and adding zeros changes nothing, wherever adding zero
/// does not.
pub proof fn adding_zeros<T: Scalar>(t: TensorView<T>)
    requires
        t.wf(),
        forall|p: int| 0 <= p < t.data.len() ==> plus(#[trigger] t.data[p], zero()) == t.data[p],
        forall|p: int| 0 <= p < t.data.len() ==> plus(zero(), #[trigger] t.data[p]) == t.data[p],
    ensures
        sum(t, filled(zero(), t.shape)) == t,
        sum(filled(zero(), t.shape), t) == t,
{
    assert(sum(t, filled(zero(), t.shape)).data =~= t.data);
    assert(sum(filled(zero(), t.shape), t).data =~= t.data);
}

/// A single number is added as if it stood everywhere.
pub proof fn adding_a_number<T: Scalar>(a: TensorView<T>, t: TensorView<T>)
    requires
        t.wf(),
        a.data.len() == 1,
        a.shape != t.shape,
    ensures
        sum(a, t) == sum(filled(a.data[0], t.shape), t),
        t.data.len() != 1 ==> sum(t, a) == sum(t, filled(a.data[0], t.shape)),
{
    let full = filled(a.data[0], t.shape);
    assert(sum(a, t).data =~= sum(full, t).data);
    if t.data.len() != 1 {
        assert(sum(t, a).data =~= sum(t, full).data);
    }
}

/// A row is added to each row: each row of the sum is the sum of the row and that row.
pub proof fn adding_a_row<T: Scalar>(a: TensorView<T>, t: TensorView<T>, i: int, j: int)
    requires
        a.wf(),
        t.wf(),
        is_row_for(a, t),
        a.shape != t.shape,
        a.data.len() != 1,
        t.data.len() != 1,
        0 <= i < t.shape[0],
        0 <= j < t.shape[1],
    ensures
        sum(a, t).shape == t.shape,
        sum(a, t).at(i, j) == plus(a.data[j], t.at(i, j)),
{
    lemma_matrix_wf(t);
    lemma_cell(i, j, t.shape[0] as int, t.shape[1] as int);
}

/// Adding tensors of one shape can be done in either order where adding numbers can.
pub proof fn adding_commutes<T: Scalar>(a: TensorView<T>, b: TensorView<T>)
    requires
        a.wf(),
        b.wf(),
        a.shape == b.shape,
        forall|p: int|
            0 <= p < a.data.len() ==> plus(#[trigger] a.data[p], b.data[p]) == plus(
                b.data[p],
                a.data[p],
            ),
    ensures
        sum(a, b) == sum(b, a),
        forall|p: int|
            0 <= p < a.data.len() ==> (#[trigger] sum(a, b).data[p]) == plus(a.data[p], b.data[p]),
{
    assert(sum(a, b).data =~= sum(b, a).data);
}

/// Multiplying by a number is multiplying place by place with that number everywhere,
/// and multiplying by one changes nothing, wherever it does not change a number.
pub proof fn scaling_is_multiplying<T: Scalar>(t: TensorView<T>, factor: T)
    requires
        t.wf(),
    ensures
        scaled(t, factor) == hadamard(t, filled(factor, t.shape)),
        (forall|p: int| 0 <= p < t.data.len() ==> times(#[trigger] t.data[p], one()) == t.data[p])
            ==> scaled(t, one()) == t && hadamard(t, filled(one(), t.shape)) == t,
        (forall|p: int| 0 <= p < t.data.len() ==> times(#[trigger] t.data[p], zero()) == zero::<T>())
            ==> scaled(t, zero()) == filled(zero::<T>(), t.shape),
{
    assert(scaled(t, factor).data =~= hadamard(t, filled(factor, t.shape)).data);
    if forall|p: int| 0 <= p < t.data.len() ==> times(#[trigger] t.data[p], one()) == t.data[p] {
        assert(scaled(t, one()).data =~= t.data);
        assert(hadamard(t, filled(one(), t.shape)).data =~= t.data);
    }
    if forall|p: int| 0 <= p < t.data.len() ==> times(#[trigger] t.data[p], zero()) == zero::<T>() {
        assert(scaled(t, zero()).data =~= filled(zero::<T>(), t.shape).data);
    }
}

/// The activation goes place by place: what stands at one place is a matter of that
/// place alone, and it is undone there.
pub proof fn activating_goes_place_by_place<T: Scalar>(t: TensorView<T>, u: TensorView<T>, p: int)
    requires
        0 <= p < t.data.len(),
        p < u.data.len(),
        t.data[p] == u.data[p],
    ensures
        activated(t).shape == t.shape,
        activated(t).data.len() == t.data.len(),
        activated(t).data[p] == activated(u).data[p],
        ({
            let d = plus(one(), exp(negated(t.data[p])));
            times(times(t.data[p], over(one(), d)), d) == t.data[p] ==> times(
                activated(t).data[p],
                d,
            ) == t.data[p]
        }),
{
}

/// Multiplying goes place by place.
pub proof fn multiplying_goes_place_by_place<T: Scalar>(
    a: TensorView<T>,
    b: TensorView<T>,
    factor: T,
    p: int,
)
    requires
        0 <= p < a.data.len(),
    ensures
        hadamard(a, b).shape == a.shape,
        hadamard(a, b).data.len() == a.data.len(),
        hadamard(a, b).data[p] == times(a.data[p], b.data[p]),
        scaled(a, factor).shape == a.shape,
        scaled(a, factor).data[p] == times(a.data[p], factor),
{
}

} // verus!
