//! Tensors in row-major storage, and the arithmetic on them.
//!
//! A tensor is a shape and a flat list of elements; the last index varies
//! fastest. [`TensorView`] is its mathematical model, and every operation is
//! stated as a function on views.
use crate::index::{lemma_cell, lemma_place};
use crate::scalar::{functional, one, zero, Scalar};
use vstd::prelude::*;
use vstd::slice::slice_to_vec;

verus! {

/// The number of elements of a tensor of shape `shape`.
pub open spec fn volume(shape: Seq<usize>) -> nat
    decreases shape.len(),
{
    if shape.len() == 0 {
        1
    } else {
        volume(shape.drop_last()) * (shape.last() as nat)
    }
}

/// The place of the element at `indices`: counted along the last index first.
pub open spec fn flat_place(shape: Seq<usize>, indices: Seq<usize>) -> int
    decreases shape.len(),
{
    if shape.len() == 0 {
        0
    } else {
        flat_place(shape.drop_last(), indices.drop_last()) * shape.last() + indices.last()
    }
}

/// Whether `indices` names an element of a tensor of shape `shape`.
pub open spec fn in_bounds(shape: Seq<usize>, indices: Seq<usize>) -> bool {
    &&& indices.len() == shape.len()
    &&& forall|d: int| 0 <= d < shape.len() ==> #[trigger] indices[d] < shape[d]
}

/// A tensor: its shape and its elements in row-major order.
#[verifier::ext_equal]
pub struct TensorView<T> {
    pub shape: Seq<usize>,
    pub data: Seq<T>,
}

impl<T> TensorView<T> {
    /// Whether there are as many elements as the shape says.
    pub open spec fn wf(self) -> bool {
        self.data.len() == volume(self.shape)
    }

    /// The number of dimensions.
    pub open spec fn ndim(self) -> nat {
        self.shape.len()
    }

    /// Whether this is a matrix of `m` rows and `n` columns.
    pub open spec fn is_matrix(self, m: int, n: int) -> bool {
        &&& self.shape.len() == 2
        &&& self.shape[0] == m
        &&& self.shape[1] == n
        &&& self.data.len() == m * n
    }

    /// The number of rows of a matrix.
    pub open spec fn height(self) -> int {
        self.shape[0] as int
    }

    /// The number of columns of a matrix.
    pub open spec fn width(self) -> int {
        self.shape[1] as int
    }

    /// The element of a matrix in row `i` and column `j`.
    pub open spec fn at(self, i: int, j: int) -> T {
        self.data[i * self.shape[1] + j]
    }

    /// Row `i` of a matrix.
    pub open spec fn row_seq(self, i: int) -> Seq<T> {
        self.data.subrange(i * self.shape[1], (i + 1) * self.shape[1])
    }
}

/// The matrix of `m` rows and `n` columns whose element in row `i` and column `j`
/// is `f(i, j)`.
pub open spec fn matrix<T>(m: usize, n: usize, f: spec_fn(int, int) -> T) -> TensorView<T> {
    TensorView {
        shape: seq![m, n],
        data: Seq::new((m * n) as nat, |p: int| f(p / n as int, p % n as int)),
    }
}

/// A matrix has what its definition says in each cell.
pub proof fn lemma_matrix_at<T>(
    m: usize,
    n: usize,
    f: spec_fn(int, int) -> T,
    i: int,
    j: int,
)
    requires
        0 <= i < m,
        0 <= j < n,
    ensures
        matrix(m, n, f).at(i, j) == f(i, j),
{
    lemma_cell(i, j, m as int, n as int);
}

/// Two matrices of one shape that agree in each cell are the same.
pub proof fn lemma_matrix_ext<T>(a: TensorView<T>, b: TensorView<T>, m: int, n: int)
    requires
        a.is_matrix(m, n),
        b.is_matrix(m, n),
        forall|i: int, j: int| 0 <= i < m && 0 <= j < n ==> #[trigger] a.at(i, j) == b.at(i, j),
    ensures
        a == b,
{
    assert(a.shape =~= b.shape);
    assert forall|p: int| 0 <= p < a.data.len() implies a.data[p] == b.data[p] by {
        lemma_place(p, m, n);
        assert(a.at(p / n, p % n) == b.at(p / n, p % n));
    }
    assert(a.data =~= b.data);
}

pub proof fn lemma_matrix_wf<T>(t: TensorView<T>)
    requires
        t.shape.len() == 2,
    ensures
        volume(t.shape) == t.shape[0] * t.shape[1],
        t.wf() <==> t.is_matrix(t.shape[0] as int, t.shape[1] as int),
{
    reveal_with_fuel(volume, 3);
    assert(t.shape.drop_last().drop_last().len() == 0);
    assert(volume(t.shape.drop_last()) == t.shape[0] as nat) by {
        assert(volume(t.shape.drop_last().drop_last()) == 1);
        assert(t.shape.drop_last().last() == t.shape[0]);
        assert(1 * (t.shape[0] as nat) == t.shape[0] as nat);
    }
}

pub proof fn lemma_vector_volume(n: usize)
    ensures
        volume(seq![n]) == n,
{
    reveal_with_fuel(volume, 2);
    assert(seq![n].drop_last().len() == 0);
    assert(1 * (n as nat) == n as nat);
}

/// The elements of a shape cut in two are those of the parts, multiplied.
pub proof fn lemma_volume_split(a: Seq<usize>, b: Seq<usize>)
    ensures
        volume(a + b) == volume(a) * volume(b),
    decreases b.len(),
{
    if b.len() == 0 {
        assert(a + b =~= a);
        assert(volume(a) * 1 == volume(a)) by (nonlinear_arith);
    } else {
        lemma_volume_split(a, b.drop_last());
        assert((a + b).drop_last() =~= a + b.drop_last());
        let (x, y, z) = (volume(a), volume(b.drop_last()), b.last() as nat);
        assert((x * y) * z == x * (y * z)) by (nonlinear_arith);
    }
}

/// The place of an element lies inside the storage.
pub proof fn lemma_place_in_bounds(shape: Seq<usize>, indices: Seq<usize>)
    requires
        in_bounds(shape, indices),
    ensures
        0 <= flat_place(shape, indices) < volume(shape),
    decreases shape.len(),
{
    if shape.len() > 0 {
        lemma_place_in_bounds_front(shape, indices);
        lemma_place_in_bounds(shape.drop_last(), indices.drop_last());
        lemma_cell(
            flat_place(shape.drop_last(), indices.drop_last()),
            indices.last() as int,
            volume(shape.drop_last()) as int,
            shape.last() as int,
        );
    }
}

proof fn lemma_place_in_bounds_front(shape: Seq<usize>, indices: Seq<usize>)
    requires
        in_bounds(shape, indices),
        shape.len() > 0,
    ensures
        in_bounds(shape.drop_last(), indices.drop_last()),
        indices.last() < shape.last(),
{
    assert(indices[shape.len() - 1] < shape[shape.len() - 1]);
    assert forall|d: int| 0 <= d < shape.drop_last().len() implies #[trigger] indices.drop_last()[d]
        < shape.drop_last()[d] by {
        assert(indices[d] < shape[d]);
    }
}

/// No two elements share a place.
pub proof fn places_are_distinct(shape: Seq<usize>, a: Seq<usize>, b: Seq<usize>)
    requires
        in_bounds(shape, a),
        in_bounds(shape, b),
        flat_place(shape, a) == flat_place(shape, b),
    ensures
        a == b,
    decreases shape.len(),
{
    if shape.len() > 0 {
        lemma_place_in_bounds_front(shape, a);
        lemma_place_in_bounds_front(shape, b);
        let front = shape.drop_last();
        lemma_place_in_bounds(front, a.drop_last());
        lemma_place_in_bounds(front, b.drop_last());
        let n = shape.last() as int;
        let m = volume(front) as int;
        lemma_cell(flat_place(front, a.drop_last()), a.last() as int, m, n);
        lemma_cell(flat_place(front, b.drop_last()), b.last() as int, m, n);
        places_are_distinct(front, a.drop_last(), b.drop_last());
        assert(a =~= a.drop_last().push(a.last()));
        assert(b =~= b.drop_last().push(b.last()));
    } else {
        assert(a =~= b);
    }
}

/// A tensor of elements in row-major order.
#[derive(Debug)]
pub struct Tensor<T> {
    shape: Vec<usize>,
    data: Vec<T>,
}

impl<T> View for Tensor<T> {
    type V = TensorView<T>;

    closed spec fn view(&self) -> TensorView<T> {
        TensorView { shape: self.shape@, data: self.data@ }
    }
}

impl<T: Copy> Clone for Tensor<T> {
    fn clone(&self) -> (r: Self)
        ensures
            r@ == self@,
    {
        Tensor { shape: slice_to_vec(self.shape.as_slice()), data: slice_to_vec(self.data.as_slice()) }
    }
}

pub(crate) proof fn lemma_volume_zero(shape: Seq<usize>, d: int)
    requires
        0 <= d < shape.len(),
        shape[d] == 0,
    ensures
        volume(shape) == 0,
    decreases shape.len(),
{
    let (x, y) = (volume(shape.drop_last()), shape.last() as nat);
    if d < shape.len() - 1 {
        lemma_volume_zero(shape.drop_last(), d);
    }
    assert(x == 0 || y == 0 ==> x * y == 0) by (nonlinear_arith);
}

pub(crate) proof fn lemma_volume_prefix(shape: Seq<usize>, d: int)
    requires
        0 <= d <= shape.len(),
        forall|k: int| 0 <= k < shape.len() ==> shape[k] != 0,
    ensures
        volume(shape.take(d)) <= volume(shape),
    decreases shape.len(),
{
    if d < shape.len() {
        lemma_volume_prefix(shape.drop_last(), d);
        assert(shape.drop_last().take(d) =~= shape.take(d));
        let (x, y) = (volume(shape.drop_last()), shape.last() as nat);
        assert(shape[shape.len() - 1] != 0);
        assert(x <= x * y) by (nonlinear_arith)
            requires
                y >= 1,
        ;
    } else {
        assert(shape.take(d) =~= shape);
    }
}

/// The number of elements of a tensor of shape `shape`.
pub fn shape_volume(shape: &[usize]) -> (r: usize)
    requires
        volume(shape@) <= usize::MAX,
    ensures
        r == volume(shape@),
{
    let mut d: usize = 0;
    while d < shape.len()
        invariant
            d <= shape@.len(),
            forall|k: int| 0 <= k < d ==> shape@[k] != 0,
        decreases shape@.len() - d,
    {
        if shape[d] == 0 {
            proof {
                lemma_volume_zero(shape@, d as int);
            }
            return 0;
        }
        d = d + 1;
    }
    let mut r: usize = 1;
    let mut k: usize = 0;
    while k < shape.len()
        invariant
            k <= shape@.len(),
            forall|i: int| 0 <= i < shape@.len() ==> shape@[i] != 0,
            volume(shape@) <= usize::MAX,
            r == volume(shape@.take(k as int)),
        decreases shape@.len() - k,
    {
        proof {
            assert(shape@.take(k + 1).drop_last() =~= shape@.take(k as int));
            lemma_volume_prefix(shape@, k + 1);
        }
        r = r * shape[k];
        k = k + 1;
    }
    assert(shape@.take(k as int) =~= shape@);
    r
}

/// Whether two shapes are the same.
pub fn same_shape(a: &[usize], b: &[usize]) -> (r: bool)
    ensures
        r == (a@ == b@),
{
    if a.len() != b.len() {
        return false;
    }
    let mut d: usize = 0;
    while d < a.len()
        invariant
            d <= a@.len(),
            a@.len() == b@.len(),
            forall|k: int| 0 <= k < d ==> a@[k] == b@[k],
        decreases a@.len() - d,
    {
        if a[d] != b[d] {
            return false;
        }
        d = d + 1;
    }
    assert(a@ =~= b@);
    true
}

fn filled<T: Copy>(value: T, n: usize) -> (r: Vec<T>)
    ensures
        r@ == Seq::new(n as nat, |i: int| value),
{
    let mut r: Vec<T> = Vec::with_capacity(n);
    let mut i: usize = 0;
    while i < n
        invariant
            i <= n,
            r@ == Seq::new(i as nat, |k: int| value),
        decreases n - i,
    {
        r.push(value);
        i = i + 1;
        assert(r@ =~= Seq::new(i as nat, |k: int| value));
    }
    r
}

impl<T: Copy> Tensor<T> {
    /// A tensor of a shape and its elements in row-major order.
    pub fn new(shape: Vec<usize>, data: Vec<T>) -> (r: Self)
        requires
            data@.len() == volume(shape@),
        ensures
            r@ == (TensorView { shape: shape@, data: data@ }),
            r@.wf(),
    {
        Tensor { shape, data }
    }

    /// The sizes of the dimensions.
    pub fn shape(&self) -> (r: &[usize])
        ensures
            r@ == self@.shape,
    {
        self.shape.as_slice()
    }

    /// The elements in row-major order.
    pub fn data(&self) -> (r: &[T])
        ensures
            r@ == self@.data,
    {
        self.data.as_slice()
    }

    /// The elements in row-major order, for changing them in place.
    pub fn data_mut(&mut self) -> (r: &mut Vec<T>)
        ensures
            r@ == old(self)@.data,
            final(self)@ == (TensorView { shape: old(self)@.shape, data: final(r)@ }),
    {
        &mut self.data
    }

    /// The elements in row-major order, taken out of the tensor.
    pub fn into_data(self) -> (r: Vec<T>)
        ensures
            r@ == self@.data,
    {
        self.data
    }

    /// The number of dimensions.
    pub fn ndim(&self) -> (r: usize)
        ensures
            r == self@.ndim(),
    {
        self.shape.len()
    }

    /// The number of elements.
    pub fn len(&self) -> (r: usize)
        ensures
            r == self@.data.len(),
    {
        self.data.len()
    }

    /// Whether there are no elements.
    pub fn is_empty(&self) -> (r: bool)
        ensures
            r == (self@.data.len() == 0),
    {
        self.data.len() == 0
    }

    /// The same elements in another shape.
    pub fn reshape(&self, new_shape: Vec<usize>) -> (r: Self)
        requires
            volume(new_shape@) == self@.data.len(),
        ensures
            r@ == (TensorView { shape: new_shape@, data: self@.data }),
            r@.wf(),
    {
        Tensor { shape: new_shape, data: slice_to_vec(self.data.as_slice()) }
    }

    fn flat_index(&self, indices: &[usize]) -> (r: usize)
        requires
            self@.wf(),
            in_bounds(self@.shape, indices@),
        ensures
            r == flat_place(self@.shape, indices@),
            r < self@.data.len(),
    {
        let ghost shape = self@.shape;
        let mut place: usize = 0;
        let mut d: usize = 0;
        proof {
            assert forall|k: int| 0 <= k < shape.len() implies shape[k] != 0 by {
                assert(indices@[k] < shape[k]);
            }
        }
        while d < self.shape.len()
            invariant
                shape == self.shape@,
                d <= shape.len(),
                in_bounds(shape, indices@),
                forall|k: int| 0 <= k < shape.len() ==> shape[k] != 0,
                volume(shape) == self.data@.len(),
                place == flat_place(shape.take(d as int), indices@.take(d as int)),
            decreases shape.len() - d,
        {
            proof {
                let s = shape.take(d + 1);
                let ix = indices@.take(d + 1);
                assert(s.drop_last() =~= shape.take(d as int));
                assert(ix.drop_last() =~= indices@.take(d as int));
                assert(in_bounds(s, ix)) by {
                    assert forall|k: int| 0 <= k < s.len() implies #[trigger] ix[k] < s[k] by {
                        assert(indices@[k] < shape[k]);
                    }
                }
                lemma_place_in_bounds(s, ix);
                lemma_volume_prefix(shape, d + 1);
                let size = self.data.len();
                assert(volume(s) <= size);
                assert(place * shape[d as int] <= place * shape[d as int] + indices@[d as int]);
            }
            place = place * self.shape[d] + indices[d];
            d = d + 1;
        }
        proof {
            assert(shape.take(d as int) =~= shape);
            assert(indices@.take(d as int) =~= indices@);
            lemma_place_in_bounds(shape, indices@);
        }
        place
    }

    /// The element at `indices`.
    pub fn get(&self, indices: &[usize]) -> (r: T)
        requires
            self@.wf(),
            in_bounds(self@.shape, indices@),
        ensures
            r == self@.data[flat_place(self@.shape, indices@)],
    {
        let place: usize = self.flat_index(indices);
        self.data[place]
    }

    /// Puts `value` at `indices`.
    pub fn set(&mut self, indices: &[usize], value: T)
        requires
            old(self)@.wf(),
            in_bounds(old(self)@.shape, indices@),
        ensures
            final(self)@ == (TensorView {
                shape: old(self)@.shape,
                data: old(self)@.data.update(flat_place(old(self)@.shape, indices@), value),
            }),
            final(self)@.wf(),
    {
        let place: usize = self.flat_index(indices);
        self.data.set(place, value);
    }
}

/// Putting a value at one place changes what is read there, and nowhere else.
pub proof fn reading_after_writing<T>(
    t: TensorView<T>,
    written: Seq<usize>,
    value: T,
    read: Seq<usize>,
)
    requires
        t.wf(),
        in_bounds(t.shape, written),
        in_bounds(t.shape, read),
    ensures
        t.data.update(flat_place(t.shape, written), value)[flat_place(t.shape, read)] == (
        if read == written {
            value
        } else {
            t.data[flat_place(t.shape, read)]
        }),
{
    lemma_place_in_bounds(t.shape, written);
    lemma_place_in_bounds(t.shape, read);
    if flat_place(t.shape, written) == flat_place(t.shape, read) {
        places_are_distinct(t.shape, written, read);
    }
}

impl<T: Scalar> Tensor<T> {
    /// A tensor of zeros.
    pub fn zeros(shape: Vec<usize>) -> (r: Self)
        requires
            volume(shape@) <= usize::MAX,
        ensures
            r@.wf(),
            r@.shape == shape@,
            functional::<T>() ==> r@.data == Seq::new(volume(shape@), |i: int| zero::<T>()),
    {
        let n: usize = shape_volume(shape.as_slice());
        let data = filled(zero::<T>(), n);
        assert(functional::<T>() ==> data@ =~= Seq::new(volume(shape@), |i: int| zero::<T>()));
        Tensor { shape, data }
    }

    /// A tensor of ones.
    pub fn ones(shape: Vec<usize>) -> (r: Self)
        requires
            volume(shape@) <= usize::MAX,
        ensures
            r@.wf(),
            r@.shape == shape@,
            functional::<T>() ==> r@.data == Seq::new(volume(shape@), |i: int| one::<T>()),
    {
        let n: usize = shape_volume(shape.as_slice());
        let data = filled(one::<T>(), n);
        assert(functional::<T>() ==> data@ =~= Seq::new(volume(shape@), |i: int| one::<T>()));
        Tensor { shape, data }
    }
}

/// One step along a dimension moves by as many places as the dimensions after it have
/// elements: by one along the last dimension.
pub proof fn one_step_along_a_dimension(shape: Seq<usize>, indices: Seq<usize>, d: int)
    requires
        indices.len() == shape.len(),
        0 <= d < shape.len(),
        indices[d] < usize::MAX,
    ensures
        flat_place(shape, indices.update(d, (indices[d] + 1) as usize)) == flat_place(
            shape,
            indices,
        ) + volume(shape.skip(d + 1)),
    decreases shape.len(),
{
    let next = indices.update(d, (indices[d] + 1) as usize);
    let (front, last) = (shape.drop_last(), shape.last());
    if d == shape.len() - 1 {
        assert(next.drop_last() =~= indices.drop_last());
        assert(shape.skip(d + 1) =~= Seq::empty());
        assert(volume(Seq::<usize>::empty()) == 1);
    } else {
        one_step_along_a_dimension(front, indices.drop_last(), d);
        assert(next.drop_last() =~= indices.drop_last().update(d, (indices[d] + 1) as usize));
        assert(next.last() == indices.last());
        assert(shape.skip(d + 1).drop_last() =~= front.skip(d + 1));
        assert(shape.skip(d + 1).last() == last);
        let (p, v) = (flat_place(front, indices.drop_last()), volume(front.skip(d + 1)) as int);
        assert((p + v) * last == p * last + v * last) by (nonlinear_arith);
    }
}

/// The first element has the first place.
pub proof fn first_element_comes_first(shape: Seq<usize>, indices: Seq<usize>)
    requires
        indices.len() == shape.len(),
        forall|d: int| 0 <= d < indices.len() ==> #[trigger] indices[d] == 0,
    ensures
        flat_place(shape, indices) == 0,
    decreases shape.len(),
{
    if shape.len() > 0 {
        let front = indices.drop_last();
        assert forall|d: int| 0 <= d < front.len() implies #[trigger] front[d] == 0 by {
            assert(front[d] == indices[d]);
        }
        first_element_comes_first(shape.drop_last(), front);
        assert(indices[indices.len() - 1] == 0);
    }
}

/// The element of a matrix in row `i` and column `j` is the one at these indices.
pub proof fn rows_come_before_columns<T>(t: TensorView<T>, i: usize, j: usize)
    requires
        t.ndim() == 2,
    ensures
        t.at(i as int, j as int) == t.data[flat_place(t.shape, seq![i, j])],
{
    reveal_with_fuel(flat_place, 3);
    let (s, x) = (t.shape, seq![i, j]);
    assert(s.drop_last().last() == s[0] && s.last() == s[1]);
    assert(x.drop_last().last() == i && x.last() == j);
    assert(s.drop_last().drop_last().len() == 0);
    assert(flat_place(s.drop_last(), x.drop_last()) == i);
    assert(flat_place(s, x) == i * s[1] + j);
}

/// A place is that of the first indices, times what the other dimensions hold, and that of
/// the others.
pub proof fn lemma_place_splits(shape: Seq<usize>, indices: Seq<usize>, d: int)
    requires
        indices.len() == shape.len(),
        0 <= d <= shape.len(),
    ensures
        flat_place(shape, indices) == flat_place(shape.take(d), indices.take(d)) * volume(
            shape.skip(d),
        ) + flat_place(shape.skip(d), indices.skip(d)),
    decreases shape.len(),
{
    if d == shape.len() {
        assert(shape.take(d) =~= shape && indices.take(d) =~= indices);
        assert(shape.skip(d) =~= Seq::empty());
        assert(volume(Seq::<usize>::empty()) == 1);
        let p = flat_place(shape, indices);
        assert(p * 1 == p);
    } else {
        let (front, some) = (shape.drop_last(), indices.drop_last());
        lemma_place_splits(front, some, d);
        assert(front.take(d) =~= shape.take(d) && some.take(d) =~= indices.take(d));
        assert(shape.skip(d).drop_last() =~= front.skip(d));
        assert(indices.skip(d).drop_last() =~= some.skip(d));
        assert(shape.skip(d).last() == shape.last());
        assert(indices.skip(d).last() == indices.last());
        let a = flat_place(shape.take(d), indices.take(d));
        let (v, b, n) = (
            volume(front.skip(d)) as int,
            flat_place(front.skip(d), some.skip(d)),
            shape.last() as int,
        );
        assert((a * v + b) * n == a * (v * n) + b * n) by (nonlinear_arith);
    }
}

} // verus!
