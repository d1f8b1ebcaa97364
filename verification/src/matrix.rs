//! Rows, transposition, stacking and multiplication of matrices.
use crate::index::lemma_cell;
use crate::scalar::{
    adds_nothing, functional, one, plus, times, unit_selects, zero, Scalar,
};
use crate::tensor::{
    lemma_matrix_at, lemma_matrix_ext, lemma_matrix_wf, lemma_vector_volume, matrix, Tensor,
    TensorView,
};
use vstd::prelude::*;
use vstd::slice::{slice_subrange, slice_to_vec};

verus! {

/// Row `i` of a matrix, as a vector.
pub open spec fn row_of<T>(t: TensorView<T>, i: int) -> TensorView<T> {
    TensorView { shape: seq![t.shape[1]], data: t.row_seq(i) }
}

/// The rows from `start` up to `end`.
pub open spec fn rows_of<T>(t: TensorView<T>, start: int, end: int) -> TensorView<T> {
    TensorView {
        shape: seq![(end - start) as usize, t.shape[1]],
        data: t.data.subrange(start * t.shape[1], end * t.shape[1]),
    }
}

/// The matrix with rows and columns exchanged.
pub open spec fn transposed<T>(t: TensorView<T>) -> TensorView<T> {
    matrix(t.shape[1], t.shape[0], |i: int, j: int| t.at(j, i))
}

/// The rows of `a` followed by the rows of `b`.
pub open spec fn stacked<T>(a: TensorView<T>, b: TensorView<T>) -> TensorView<T> {
    TensorView {
        shape: seq![(a.shape[0] + b.shape[0]) as usize, a.shape[1]],
        data: a.data + b.data,
    }
}

/// The first `k` products of row `i` of `a` with column `j` of `b`, added from the
/// first on.
pub open spec fn dot<T: Scalar>(a: TensorView<T>, b: TensorView<T>, i: int, j: int, k: int) -> T
    decreases k,
{
    if k <= 0 {
        zero()
    } else {
        plus(dot(a, b, i, j, k - 1), times(a.at(i, k - 1), b.at(k - 1, j)))
    }
}

/// The matrix product: in each cell the row of `a` times the column of `b`.
pub open spec fn product<T: Scalar>(a: TensorView<T>, b: TensorView<T>) -> TensorView<T> {
    matrix(a.shape[0], b.shape[1], |i: int, j: int| dot(a, b, i, j, a.shape[1] as int))
}

pub proof fn lemma_row_bounds<T>(t: TensorView<T>, i: int)
    requires
        t.wf(),
        t.ndim() == 2,
        0 <= i <= t.shape[0],
    ensures
        0 <= i * t.shape[1] <= t.data.len(),
        (i + 1) * t.shape[1] == i * t.shape[1] + t.shape[1],
        i < t.shape[0] ==> (i + 1) * t.shape[1] <= t.data.len(),
{
    lemma_matrix_wf(t);
    let (m, n) = (t.shape[0] as int, t.shape[1] as int);
    assert(0 <= i * n <= m * n) by (nonlinear_arith)
        requires
            0 <= i <= m,
            0 <= n,
    ;
    assert((i + 1) * n == i * n + n) by (nonlinear_arith);
    if i < m {
        assert((i + 1) * n <= m * n) by (nonlinear_arith)
            requires
                i + 1 <= m,
                0 <= n,
        ;
    }
}

/// Rows `start..end` are the rows of the matrix, moved up by `start`.
pub proof fn lemma_rows_at<T>(t: TensorView<T>, start: int, end: int)
    requires
        t.wf(),
        t.ndim() == 2,
        0 <= start <= end <= t.shape[0],
    ensures
        rows_of(t, start, end).is_matrix(end - start, t.shape[1] as int),
        rows_of(t, start, end).wf(),
        forall|i: int, j: int|
            0 <= i < end - start && 0 <= j < t.shape[1] ==> #[trigger] rows_of(t, start, end).at(
                i,
                j,
            ) == t.at(start + i, j),
{
    let n = t.shape[1] as int;
    let r = rows_of(t, start, end);
    lemma_row_bounds(t, start);
    lemma_row_bounds(t, end);
    assert(end * n - start * n == (end - start) * n) by (nonlinear_arith);
    assert(start * n <= end * n) by (nonlinear_arith)
        requires
            start <= end,
            0 <= n,
    ;
    assert(r.is_matrix(end - start, n));
    lemma_matrix_wf(r);
    assert forall|i: int, j: int| 0 <= i < end - start && 0 <= j < n implies #[trigger] r.at(i, j)
        == t.at(start + i, j) by {
        lemma_cell(i, j, end - start, n);
        assert((start + i) * n + j == start * n + (i * n + j)) by (nonlinear_arith);
    }
}

/// Exchanging rows and columns twice gives the matrix back.
pub proof fn transposing_twice<T>(t: TensorView<T>)
    requires
        t.wf(),
        t.ndim() == 2,
    ensures
        transposed(transposed(t)) == t,
{
    lemma_matrix_wf(t);
    let (m, n) = (t.shape[0], t.shape[1]);
    let once = transposed(t);
    let twice = transposed(once);
    assert forall|i: int, j: int| 0 <= i < m && 0 <= j < n implies #[trigger] twice.at(i, j)
        == t.at(i, j) by {
        lemma_matrix_at(m, n, |a: int, b: int| once.at(b, a), i, j);
        lemma_matrix_at(n, m, |a: int, b: int| t.at(b, a), j, i);
    }
    lemma_matrix_ext(twice, t, m as int, n as int);
}

/// Cutting a matrix in two and stacking the parts gives the matrix back.
pub proof fn stacking_what_was_cut<T>(t: TensorView<T>, cut: int)
    requires
        t.wf(),
        t.ndim() == 2,
        0 <= cut <= t.shape[0],
    ensures
        stacked(rows_of(t, 0, cut), rows_of(t, cut, t.shape[0] as int)) == t,
{
    lemma_matrix_wf(t);
    lemma_row_bounds(t, cut);
    assert(0 * t.shape[1] == 0);
    let r = stacked(rows_of(t, 0, cut), rows_of(t, cut, t.shape[0] as int));
    assert(r.shape =~= t.shape);
    assert(r.data =~= t.data);
}

/// Stacking keeps the rows of both parts: first those of `a`, then those of `b`.
pub proof fn stacking_keeps_rows<T>(a: TensorView<T>, b: TensorView<T>)
    requires
        a.wf(),
        b.wf(),
        a.ndim() == 2,
        b.ndim() == 2,
        a.shape[1] == b.shape[1],
        a.shape[0] + b.shape[0] <= usize::MAX,
    ensures
        stacked(a, b).wf(),
        rows_of(stacked(a, b), 0, a.shape[0] as int) == a,
        rows_of(stacked(a, b), a.shape[0] as int, a.shape[0] + b.shape[0]) == b,
{
    lemma_matrix_wf(a);
    lemma_matrix_wf(b);
    let s = stacked(a, b);
    let n = a.shape[1] as int;
    let (h, k) = (a.shape[0] as int, b.shape[0] as int);
    assert((h + k) * n == h * n + k * n) by (nonlinear_arith);
    lemma_matrix_wf(s);
    assert(0 * n == 0);
    let first = rows_of(s, 0, h);
    let second = rows_of(s, h, h + k);
    assert(first.shape =~= a.shape);
    assert(first.data =~= a.data);
    assert(second.shape =~= b.shape);
    assert(second.data =~= b.data);
}

proof fn lemma_dot_depends_on_row<T: Scalar>(
    a: TensorView<T>,
    i: int,
    c: TensorView<T>,
    l: int,
    b: TensorView<T>,
    j: int,
    k: int,
)
    requires
        forall|x: int| 0 <= x < k ==> #[trigger] a.at(i, x) == c.at(l, x),
    ensures
        dot(a, b, i, j, k) == dot(c, b, l, j, k),
    decreases k,
{
    if k > 0 {
        lemma_dot_depends_on_row(a, i, c, l, b, j, k - 1);
        assert(a.at(i, k - 1) == c.at(l, k - 1));
    }
}

/// A row of a matrix product depends on that row of the left factor alone: where
/// row `i` of `a` is row `l` of `c`, the products agree in these rows.
pub proof fn product_goes_row_by_row<T: Scalar>(
    a: TensorView<T>,
    i: int,
    c: TensorView<T>,
    l: int,
    b: TensorView<T>,
    j: int,
)
    requires
        0 <= i < a.shape[0],
        0 <= l < c.shape[0],
        a.shape[1] == c.shape[1],
        0 <= j < b.shape[1],
        forall|x: int| 0 <= x < a.shape[1] ==> #[trigger] a.at(i, x) == c.at(l, x),
    ensures
        product(a, b).at(i, j) == product(c, b).at(l, j),
{
    let k = a.shape[1] as int;
    lemma_matrix_at(a.shape[0], b.shape[1], |x: int, y: int| dot(a, b, x, y, k), i, j);
    lemma_matrix_at(c.shape[0], b.shape[1], |x: int, y: int| dot(c, b, x, y, k), l, j);
    lemma_dot_depends_on_row(a, i, c, l, b, j, k);
}

impl<T: Copy> Tensor<T> {
    /// Row `row` of a matrix, as a vector.
    pub fn row(&self, row: usize) -> (r: Tensor<T>)
        requires
            self@.wf(),
            self@.ndim() == 2,
            row < self@.shape[0],
        ensures
            r@ == row_of(self@, row as int),
            r@.wf(),
    {
        proof {
            lemma_row_bounds(self@, row as int);
        }
        let n: usize = self.shape()[1];
        let len: usize = self.len();
        let start: usize = row * n;
        let data = slice_to_vec(slice_subrange(self.data(), start, start + n));
        let shape: Vec<usize> = vec![n];
        proof {
            assert(shape@ =~= seq![n]);
            lemma_vector_volume(n);
        }
        Tensor::new(shape, data)
    }

    /// The rows from `start` up to `end`.
    pub fn rows(&self, start: usize, end: usize) -> (r: Tensor<T>)
        requires
            self@.wf(),
            self@.ndim() == 2,
            start <= end <= self@.shape[0],
        ensures
            r@ == rows_of(self@, start as int, end as int),
            r@.wf(),
    {
        proof {
            lemma_row_bounds(self@, start as int);
            lemma_row_bounds(self@, end as int);
            lemma_rows_at(self@, start as int, end as int);
        }
        let n: usize = self.shape()[1];
        let len: usize = self.len();
        assert(start * n <= end * n) by (nonlinear_arith)
            requires
                start <= end,
                0 <= n,
        ;
        let data = slice_to_vec(slice_subrange(self.data(), start * n, end * n));
        let height: usize = end - start;
        let shape: Vec<usize> = vec![height, n];
        assert(shape@ =~= rows_of(self@, start as int, end as int).shape);
        Tensor::new(shape, data)
    }

    /// The matrix with rows and columns exchanged.
    pub fn transpose_2d(&self) -> (r: Tensor<T>)
        requires
            self@.wf(),
            self@.ndim() == 2,
        ensures
            r@ == transposed(self@),
            r@.wf(),
    {
        let m: usize = self.shape()[0];
        let n: usize = self.shape()[1];
        let len: usize = self.len();
        let ghost t = self@;
        let ghost f = |i: int, j: int| t.at(j, i);
        proof {
            lemma_matrix_wf(t);
            assert(m * n == n * m) by (nonlinear_arith);
        }
        let mut data: Vec<T> = Vec::with_capacity(len);
        let mut i: usize = 0;
        assert(0 * m == 0);
        while i < n
            invariant
                i <= n,
                t == self@,
                t.is_matrix(m as int, n as int),
                f == (|i: int, j: int| t.at(j, i)),
                data@.len() == i * m,
                forall|p: int|
                    0 <= p < data@.len() ==> #[trigger] data@[p] == f(p / m as int, p % m as int),
            decreases n - i,
        {
            let mut j: usize = 0;
            while j < m
                invariant
                    i < n,
                    j <= m,
                    t == self@,
                    t.is_matrix(m as int, n as int),
                    f == (|i: int, j: int| t.at(j, i)),
                    data@.len() == i * m + j,
                    forall|p: int|
                        0 <= p < data@.len() ==> #[trigger] data@[p] == f(
                            p / m as int,
                            p % m as int,
                        ),
                decreases m - j,
            {
                let size: usize = self.len();
                proof {
                    lemma_cell(i as int, j as int, n as int, m as int);
                    lemma_cell(j as int, i as int, m as int, n as int);
                }
                data.push(self.data()[j * n + i]);
                j = j + 1;
            }
            assert((i + 1) * m == i * m + m) by (nonlinear_arith);
            i = i + 1;
        }
        let shape: Vec<usize> = vec![n, m];
        proof {
            assert(shape@ =~= seq![n, m]);
            assert(data@ =~= matrix(n, m, f).data);
            lemma_matrix_wf(matrix(n, m, f));
        }
        Tensor::new(shape, data)
    }

    /// The rows of this matrix followed by the rows of `other`.
    pub fn stack_rows(&self, other: &Tensor<T>) -> (r: Tensor<T>)
        requires
            self@.wf(),
            other@.wf(),
            self@.ndim() == 2,
            other@.ndim() == 2,
            self@.shape[1] == other@.shape[1],
            self@.shape[0] + other@.shape[0] <= usize::MAX,
        ensures
            r@ == stacked(self@, other@),
            r@.wf(),
    {
        let mut data: Vec<T> = slice_to_vec(self.data());
        let more = other.data();
        let mut i: usize = 0;
        assert(data@ =~= self@.data + more@.take(0));
        while i < more.len()
            invariant
                i <= more@.len(),
                data@ == self@.data + more@.take(i as int),
            decreases more@.len() - i,
        {
            data.push(more[i]);
            i = i + 1;
            assert(data@ =~= self@.data + more@.take(i as int));
        }
        assert(more@.take(i as int) =~= more@);
        let height: usize = self.shape()[0] + other.shape()[0];
        let width: usize = self.shape()[1];
        let shape: Vec<usize> = vec![height, width];
        proof {
            stacking_keeps_rows(self@, other@);
            assert(shape@ =~= stacked(self@, other@).shape);
        }
        Tensor::new(shape, data)
    }

    /// The rows of a matrix, or a vector as a single row.
    pub fn to_vec2d(&self) -> (r: Vec<Vec<T>>)
        requires
            self@.wf(),
            self@.ndim() == 1 || self@.ndim() == 2,
        ensures
            self@.ndim() == 1 ==> r@.len() == 1 && r@[0]@ == self@.data,
            self@.ndim() == 2 ==> r@.len() == self@.shape[0] && forall|i: int|
                0 <= i < self@.shape[0] ==> (#[trigger] r@[i])@ == self@.row_seq(i),
    {
        let mut out: Vec<Vec<T>> = Vec::new();
        if self.ndim() == 1 {
            out.push(slice_to_vec(self.data()));
            return out;
        }
        let m: usize = self.shape()[0];
        let mut i: usize = 0;
        while i < m
            invariant
                i <= m,
                self@.wf(),
                self@.ndim() == 2,
                m == self@.shape[0],
                out@.len() == i,
                forall|k: int| 0 <= k < i ==> (#[trigger] out@[k])@ == self@.row_seq(k),
            decreases m - i,
        {
            out.push(self.row(i).into_data());
            i = i + 1;
        }
        out
    }
}

impl<T: Scalar> Tensor<T> {
    /// The matrix product of this matrix and `other`.
    pub fn matmul(&self, other: &Tensor<T>) -> (r: Tensor<T>)
        requires
            self@.wf(),
            other@.wf(),
            self@.ndim() == 2,
            other@.ndim() == 2,
            self@.shape[1] == other@.shape[0],
            self@.shape[0] * other@.shape[1] <= usize::MAX,
        ensures
            r@.is_matrix(self@.shape[0] as int, other@.shape[1] as int),
            r@.wf(),
            functional::<T>() ==> r@ == product(self@, other@),
    {
        let m: usize = self.shape()[0];
        let k: usize = self.shape()[1];
        let n: usize = other.shape()[1];
        let ghost a = self@;
        let ghost b = other@;
        let ghost f = |i: int, j: int| dot(a, b, i, j, a.shape[1] as int);
        proof {
            lemma_matrix_wf(a);
            lemma_matrix_wf(b);
            assert(0 * n == 0);
        }
        let mut data: Vec<T> = Vec::with_capacity(m * n);
        let mut i: usize = 0;
        while i < m
            invariant
                i <= m,
                a == self@,
                b == other@,
                m * n <= usize::MAX,
                a.is_matrix(m as int, k as int),
                b.is_matrix(k as int, n as int),
                f == (|i: int, j: int| dot(a, b, i, j, a.shape[1] as int)),
                data@.len() == i * n,
                functional::<T>() ==> forall|p: int|
                    0 <= p < data@.len() ==> #[trigger] data@[p] == f(p / n as int, p % n as int),
            decreases m - i,
        {
            let mut j: usize = 0;
            while j < n
                invariant
                    i < m,
                    j <= n,
                    a == self@,
                    b == other@,
                    m * n <= usize::MAX,
                    a.is_matrix(m as int, k as int),
                    b.is_matrix(k as int, n as int),
                    f == (|i: int, j: int| dot(a, b, i, j, a.shape[1] as int)),
                    data@.len() == i * n + j,
                    functional::<T>() ==> forall|p: int|
                        0 <= p < data@.len() ==> #[trigger] data@[p] == f(
                            p / n as int,
                            p % n as int,
                        ),
                decreases n - j,
            {
                let mut sum: T = zero();
                let mut x: usize = 0;
                while x < k
                    invariant
                        i < m,
                        j < n,
                        x <= k,
                        a == self@,
                        b == other@,
                        a.is_matrix(m as int, k as int),
                        b.is_matrix(k as int, n as int),
                        functional::<T>() ==> sum == dot(a, b, i as int, j as int, x as int),
                    decreases k - x,
                {
                    let left = self.data();
                    let right = other.data();
                    let (left_len, right_len): (usize, usize) = (left.len(), right.len());
                    proof {
                        lemma_cell(i as int, x as int, m as int, k as int);
                        lemma_cell(x as int, j as int, k as int, n as int);
                    }
                    sum = plus(sum, times(left[i * k + x], right[x * n + j]));
                    x = x + 1;
                }
                proof {
                    lemma_cell(i as int, j as int, m as int, n as int);
                }
                data.push(sum);
                j = j + 1;
            }
            assert((i + 1) * n == i * n + n) by (nonlinear_arith);
            i = i + 1;
        }
        let shape: Vec<usize> = vec![m, n];
        let ghost view = TensorView { shape: shape@, data: data@ };
        proof {
            lemma_matrix_wf(view);
            if functional::<T>() {
                assert(shape@ =~= seq![m, n]);
                assert(data@ =~= matrix(m, n, f).data);
            }
        }
        Tensor::new(shape, data)
    }
}

/// Exchanging rows and columns puts each element in the row of its column and the
/// column of its row.
pub proof fn transposing_exchanges<T>(t: TensorView<T>, i: int, j: int)
    requires
        t.ndim() == 2,
        0 <= i < t.shape[0],
        0 <= j < t.shape[1],
    ensures
        transposed(t).shape == seq![t.shape[1], t.shape[0]],
        transposed(t).at(j, i) == t.at(i, j),
{
    lemma_matrix_at(t.shape[1], t.shape[0], |a: int, b: int| t.at(b, a), j, i);
}

/// The elements of a row are those of the matrix in that row.
pub proof fn row_has_the_elements<T>(t: TensorView<T>, i: int, j: int)
    requires
        t.wf(),
        t.ndim() == 2,
        0 <= i < t.shape[0],
        0 <= j < t.shape[1],
    ensures
        row_of(t, i).shape == seq![t.shape[1]],
        row_of(t, i).data.len() == t.shape[1],
        row_of(t, i).data[j] == t.at(i, j),
{
    lemma_row_bounds(t, i);
}

/// A product whose factors share one more dimension has one more summand in each cell:
/// the product of the elements in that dimension, added last.
pub proof fn product_grows_by_a_summand<T: Scalar>(
    a: TensorView<T>,
    b: TensorView<T>,
    c: TensorView<T>,
    d: TensorView<T>,
    i: int,
    j: int,
)
    requires
        c.shape[0] == a.shape[0],
        c.shape[1] == a.shape[1] + 1,
        d.shape[1] == b.shape[1],
        0 <= i < a.shape[0],
        0 <= j < b.shape[1],
        forall|x: int| 0 <= x < a.shape[1] ==> #[trigger] c.at(i, x) == a.at(i, x),
        forall|x: int| 0 <= x < a.shape[1] ==> #[trigger] d.at(x, j) == b.at(x, j),
    ensures
        product(c, d).at(i, j) == plus(
            product(a, b).at(i, j),
            times(c.at(i, a.shape[1] as int), d.at(a.shape[1] as int, j)),
        ),
{
    let k = a.shape[1] as int;
    lemma_matrix_at(a.shape[0], b.shape[1], |x: int, y: int| dot(a, b, x, y, k), i, j);
    lemma_matrix_at(c.shape[0], d.shape[1], |x: int, y: int| dot(c, d, x, y, k + 1), i, j);
    assert(product(c, d) == matrix(
        c.shape[0],
        d.shape[1],
        |x: int, y: int| dot(c, d, x, y, c.shape[1] as int),
    ));
    lemma_same_dot(a, b, c, d, i, j, k);
}

proof fn lemma_same_dot<T: Scalar>(
    a: TensorView<T>,
    b: TensorView<T>,
    c: TensorView<T>,
    d: TensorView<T>,
    i: int,
    j: int,
    k: int,
)
    requires
        forall|x: int| 0 <= x < k ==> #[trigger] c.at(i, x) == a.at(i, x),
        forall|x: int| 0 <= x < k ==> #[trigger] d.at(x, j) == b.at(x, j),
    ensures
        dot(a, b, i, j, k) == dot(c, d, i, j, k),
    decreases k,
{
    if k > 0 {
        lemma_same_dot(a, b, c, d, i, j, k - 1);
        assert(c.at(i, k - 1) == a.at(i, k - 1));
        assert(d.at(k - 1, j) == b.at(k - 1, j));
    }
}

/// A product whose factors share no dimension is zero in each cell.
pub proof fn product_of_nothing<T: Scalar>(a: TensorView<T>, b: TensorView<T>, i: int, j: int)
    requires
        a.shape[1] == 0,
        0 <= i < a.shape[0],
        0 <= j < b.shape[1],
    ensures
        product(a, b).shape == seq![a.shape[0], b.shape[1]],
        product(a, b).at(i, j) == zero::<T>(),
{
    lemma_matrix_at(a.shape[0], b.shape[1], |x: int, y: int| dot(a, b, x, y, 0), i, j);
    assert(product(a, b) == matrix(
        a.shape[0],
        b.shape[1],
        |x: int, y: int| dot(a, b, x, y, a.shape[1] as int),
    ));
}

/// Whether `t` has ones where row and column are the same, and zeros elsewhere.
pub open spec fn is_identity<T: Scalar>(t: TensorView<T>) -> bool {
    &&& t.wf()
    &&& t.ndim() == 2
    &&& t.shape[0] == t.shape[1]
    &&& forall|i: int, j: int|
        0 <= i < t.shape[0] && 0 <= j < t.shape[1] ==> #[trigger] t.at(i, j) == (if i == j {
            one::<T>()
        } else {
            zero::<T>()
        })
}

/// Whether every element of `t` is zero.
pub open spec fn is_zero<T: Scalar>(t: TensorView<T>) -> bool {
    &&& t.wf()
    &&& t.ndim() == 2
    &&& forall|i: int, j: int|
        0 <= i < t.shape[0] && 0 <= j < t.shape[1] ==> #[trigger] t.at(i, j) == zero::<T>()
}

/// Whether sums over each row of `t` select its elements.
pub open spec fn rows_select<T: Scalar>(t: TensorView<T>) -> bool {
    forall|i: int| 0 <= i < t.shape[0] ==> unit_selects(#[trigger] t.row_seq(i))
}

proof fn lemma_dot_with_unit<T: Scalar>(
    a: TensorView<T>,
    e: TensorView<T>,
    i: int,
    j: int,
    k: int,
)
    requires
        a.wf(),
        a.ndim() == 2,
        is_identity(e),
        e.shape[0] == a.shape[1],
        rows_select(a),
        0 <= i < a.shape[0],
        0 <= j < a.shape[1],
        0 <= k <= a.shape[1],
    ensures
        dot(a, e, i, j, k) == (if j < k {
            a.at(i, j)
        } else {
            zero::<T>()
        }),
    decreases k,
{
    if k > 0 {
        lemma_dot_with_unit(a, e, i, j, k - 1);
        lemma_row_bounds(a, i);
        let row = a.row_seq(i);
        assert(unit_selects(row));
        assert(row[j] == a.at(i, j) && row[k - 1] == a.at(i, k - 1));
        assert(e.at(k - 1, j) == (if k - 1 == j {
            one::<T>()
        } else {
            zero::<T>()
        }));
        assert(adds_nothing(row[k - 1]));
        assert(plus(row[j], times(row[k - 1], zero())) == row[j]);
    }
}

/// Multiplying by the identity changes nothing, wherever sums over a row select its
/// elements.
pub proof fn multiplying_by_the_identity<T: Scalar>(a: TensorView<T>, e: TensorView<T>)
    requires
        a.wf(),
        a.ndim() == 2,
        is_identity(e),
        e.shape[0] == a.shape[1],
        rows_select(a),
    ensures
        product(a, e) == a,
{
    let (m, n) = (a.shape[0], a.shape[1]);
    lemma_matrix_wf(a);
    let p = product(a, e);
    lemma_matrix_wf(p);
    assert forall|i: int, j: int| 0 <= i < m && 0 <= j < n implies #[trigger] p.at(i, j) == a.at(
        i,
        j,
    ) by {
        lemma_matrix_at(m, n, |x: int, y: int| dot(a, e, x, y, a.shape[1] as int), i, j);
        lemma_dot_with_unit(a, e, i, j, n as int);
    }
    lemma_matrix_ext(p, a, m as int, n as int);
}

proof fn lemma_dot_with_zeros<T: Scalar>(
    a: TensorView<T>,
    z: TensorView<T>,
    i: int,
    j: int,
    k: int,
)
    requires
        0 <= k,
        forall|x: int| 0 <= x < k ==> adds_nothing(#[trigger] a.at(i, x)),
        forall|x: int| 0 <= x < k ==> #[trigger] z.at(x, j) == zero::<T>(),
    ensures
        dot(a, z, i, j, k) == zero::<T>(),
    decreases k,
{
    if k > 0 {
        lemma_dot_with_zeros(a, z, i, j, k - 1);
        assert(adds_nothing(a.at(i, k - 1)));
        assert(z.at(k - 1, j) == zero::<T>());
    }
}

/// Multiplying by zeros gives zeros, wherever what has no share adds nothing.
pub proof fn multiplying_by_zeros<T: Scalar>(a: TensorView<T>, z: TensorView<T>)
    requires
        a.ndim() == 2,
        is_zero(z),
        z.shape[0] == a.shape[1],
        forall|i: int, x: int|
            0 <= i < a.shape[0] && 0 <= x < a.shape[1] ==> adds_nothing(#[trigger] a.at(i, x)),
    ensures
        is_zero(product(a, z)),
        product(a, z).shape == seq![a.shape[0], z.shape[1]],
{
    let (m, n, k) = (a.shape[0], z.shape[1], a.shape[1] as int);
    let p = product(a, z);
    assert(0 <= m * n) by (nonlinear_arith);
    lemma_matrix_wf(p);
    assert forall|i: int, j: int| 0 <= i < m && 0 <= j < n implies #[trigger] p.at(i, j)
        == zero::<T>() by {
        lemma_matrix_at(m, n, |x: int, y: int| dot(a, z, x, y, a.shape[1] as int), i, j);
        lemma_dot_with_zeros(a, z, i, j, k);
    }
}

} // verus!
