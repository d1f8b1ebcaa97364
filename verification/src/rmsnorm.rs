//! Root-mean-square normalization.
use crate::index::lemma_cell;
use crate::matrix::lemma_row_bounds;
use crate::scalar::{
    from_count, functional, one, one_is_neutral, over, plus, sqrt, times, zero, Scalar,
};
use crate::softmax::total;
use crate::tensor::{lemma_matrix_wf, lemma_vector_volume, volume, Tensor, TensorView};
use vstd::prelude::*;
use vstd::slice::slice_to_vec;

verus! {

/// The squares of the elements added up from the first on.
pub open spec fn square_sum<T: Scalar>(row: Seq<T>) -> T
    decreases row.len(),
{
    if row.len() == 0 {
        zero()
    } else {
        plus(square_sum(row.drop_last()), times(row.last(), row.last()))
    }
}

/// What a row is multiplied by: `1 / sqrt(mean of the squares + eps)`.
pub open spec fn inverse_rms<T: Scalar>(row: Seq<T>, eps: T) -> T {
    over(one(), sqrt(plus(over(square_sum(row), from_count(row.len() as u64)), eps)))
}

/// A row normalized and weighted.
pub open spec fn normalized_row<T: Scalar>(row: Seq<T>, weight: Seq<T>, eps: T) -> Seq<T> {
    Seq::new(row.len(), |j: int| times(times(row[j], inverse_rms(row, eps)), weight[j]))
}

/// A tensor normalized row by row; a row runs along the last dimension.
pub open spec fn normalized<T: Scalar>(
    t: TensorView<T>,
    weight: TensorView<T>,
    eps: T,
) -> TensorView<T> {
    let n = t.shape.last() as int;
    TensorView {
        shape: t.shape,
        data: Seq::new(
            t.data.len(),
            |p: int|
                normalized_row(
                    t.data.subrange(p / n * n, p / n * n + n),
                    weight.data,
                    eps,
                )[p % n],
        ),
    }
}

/// Whether a tensor can be normalized with `weight`: it has a last dimension, and
/// `weight` is a vector of that length.
pub open spec fn normalizable<T>(t: TensorView<T>, weight: TensorView<T>) -> bool {
    &&& t.ndim() >= 1
    &&& weight.ndim() == 1
    &&& weight.shape[0] == t.shape.last()
}

/// Appends the normalized row that starts at `start` to `out`.
fn push_normalized_row<T: Scalar>(
    data: &[T],
    start: usize,
    n: usize,
    weight: &[T],
    eps: T,
    out: &mut Vec<T>,
)
    requires
        start + n <= data@.len(),
        weight@.len() == n,
    ensures
        final(out)@.len() == old(out)@.len() + n,
        forall|p: int| 0 <= p < old(out)@.len() ==> final(out)@[p] == old(out)@[p],
        functional::<T>() ==> forall|j: int|
            0 <= j < n ==> #[trigger] final(out)@[old(out)@.len() + j] == normalized_row(
                data@.subrange(start as int, start + n),
                weight@,
                eps,
            )[j],
{
    let ghost row = data@.subrange(start as int, start + n);
    let len: usize = data.len();
    let mut sum: T = zero();
    let mut j: usize = 0;
    assert(row.take(0) =~= Seq::empty());
    while j < n
        invariant
            j <= n,
            start + n <= data@.len(),
            data@.len() <= usize::MAX,
            row == data@.subrange(start as int, start + n),
            functional::<T>() ==> sum == square_sum(row.take(j as int)),
        decreases n - j,
    {
        assert(row.take(j + 1).drop_last() =~= row.take(j as int));
        let v: T = data[start + j];
        sum = plus(sum, times(v, v));
        j = j + 1;
    }
    assert(row.take(j as int) =~= row);
    let mean: T = over(sum, from_count(n as u64));
    let inv: T = over(one(), sqrt(plus(mean, eps)));
    let ghost before = out@;
    let ghost base = out@.len();
    let mut k: usize = 0;
    while k < n
        invariant
            k <= n,
            start + n <= data@.len(),
            data@.len() <= usize::MAX,
            weight@.len() == n,
            row == data@.subrange(start as int, start + n),
            functional::<T>() ==> inv == inverse_rms(row, eps),
            base == before.len(),
            out@.len() == base + k,
            forall|p: int| 0 <= p < base ==> out@[p] == before[p],
            functional::<T>() ==> forall|i: int|
                0 <= i < k ==> #[trigger] out@[base + i] == normalized_row(row, weight@, eps)[i],
        decreases n - k,
    {
        out.push(times(times(data[start + k], inv), weight[k]));
        k = k + 1;
    }
}

impl<T: Scalar> Tensor<T> {
    /// Normalizes every row by its root mean square and weights it.
    pub fn rms_norm(&self, weight: &Tensor<T>, eps: T) -> (r: Tensor<T>)
        requires
            self@.wf(),
            weight@.wf(),
            normalizable(self@, weight@),
        ensures
            r@.wf(),
            r@.shape == self@.shape,
            functional::<T>() ==> r@ == normalized(self@, weight@, eps),
    {
        let data = self.data();
        let len: usize = data.len();
        let n: usize = self.shape()[self.ndim() - 1];
        let ghost rows = volume(self@.shape.drop_last()) as int;
        proof {
            lemma_vector_volume(n);
            assert(weight@.shape =~= seq![n]);
            assert(len == rows * n);
            assert(0 * n == 0);
        }
        let mut out: Vec<T> = Vec::with_capacity(len);
        let mut r: usize = 0;
        let mut start: usize = 0;
        while start < len
            invariant
                data@ == self@.data,
                len == data@.len(),
                len == rows * n,
                n == self@.shape.last(),
                weight@.data.len() == n,
                r <= rows,
                start <= len,
                start == r * n,
                out@.len() == start,
                functional::<T>() ==> forall|p: int|
                    0 <= p < start ==> #[trigger] out@[p] == normalized(
                        self@,
                        weight@,
                        eps,
                    ).data[p],
            decreases len - start,
        {
            proof {
                assert(r < rows && n > 0) by (nonlinear_arith)
                    requires
                        r * n < rows * n,
                        0 <= n,
                ;
                lemma_cell(r as int, 0, rows, n as int);
                assert(r <= r * n) by (nonlinear_arith)
                    requires
                        n > 0,
                ;
            }
            let ghost before = out@;
            push_normalized_row(data, start, n, weight.data(), eps, &mut out);
            proof {
                if functional::<T>() {
                    assert forall|p: int| 0 <= p < start + n implies #[trigger] out@[p]
                        == normalized(self@, weight@, eps).data[p] by {
                        if p < start {
                            assert(out@[p] == before[p]);
                        } else {
                            lemma_cell(r as int, p - start, rows, n as int);
                            assert(out@[start + (p - start)] == out@[p]);
                        }
                    }
                }
            }
            start = start + n;
            r = r + 1;
        }
        assert(functional::<T>() ==> out@ =~= normalized(self@, weight@, eps).data);
        Tensor::new(slice_to_vec(self.shape()), out)
    }
}

/// Rows are normalized independently of one another: a row of the result is the
/// row of the input, normalized.
pub proof fn normalizing_goes_row_by_row<T: Scalar>(
    t: TensorView<T>,
    weight: TensorView<T>,
    eps: T,
    r: int,
)
    requires
        t.wf(),
        normalizable(t, weight),
        0 <= r < volume(t.shape.drop_last()),
    ensures
        ({
            let n = t.shape.last() as int;
            normalized(t, weight, eps).data.subrange(r * n, r * n + n) == normalized_row(
                t.data.subrange(r * n, r * n + n),
                weight.data,
                eps,
            )
        }),
{
    let n = t.shape.last() as int;
    let rows = volume(t.shape.drop_last()) as int;
    let result = normalized(t, weight, eps);
    if n == 0 {
        assert(r * n == 0) by (nonlinear_arith)
            requires
                n == 0,
        ;
        assert(result.data.subrange(r * n, r * n + n) =~= normalized_row(
            t.data.subrange(r * n, r * n + n),
            weight.data,
            eps,
        ));
    } else {
        lemma_cell(r, 0, rows, n);
        assert forall|j: int| 0 <= j < n implies #[trigger] result.data.subrange(
            r * n,
            r * n + n,
        )[j] == normalized_row(t.data.subrange(r * n, r * n + n), weight.data, eps)[j] by {
            lemma_cell(r, j, rows, n);
        }
        assert(result.data.subrange(r * n, r * n + n) =~= normalized_row(
            t.data.subrange(r * n, r * n + n),
            weight.data,
            eps,
        ));
    }
}

/// What a normalization layer holds.
#[verifier::ext_equal]
pub struct RMSNormView<T> {
    pub weight: TensorView<T>,
    pub eps: T,
}

impl<T: Scalar> RMSNormView<T> {
    /// Whether the weight is a vector.
    pub open spec fn wf(self) -> bool {
        self.weight.wf() && self.weight.ndim() == 1
    }

    /// The length of the rows that this layer normalizes.
    pub open spec fn size(self) -> usize {
        self.weight.shape[0]
    }

    /// What this layer makes of `x`.
    pub open spec fn output(self, x: TensorView<T>) -> TensorView<T> {
        normalized(x, self.weight, self.eps)
    }
}

/// A normalization layer: a learned weight and a small constant that keeps the
/// divisor from being zero.
pub struct RMSNorm<T> {
    weight: Tensor<T>,
    eps: T,
}

impl<T> View for RMSNorm<T> {
    type V = RMSNormView<T>;

    closed spec fn view(&self) -> RMSNormView<T> {
        RMSNormView { weight: self.weight@, eps: self.eps }
    }
}

impl<T: Scalar> RMSNorm<T> {
    /// A layer with the given weight, which is a vector.
    pub fn new(weight: Tensor<T>, eps: T) -> (r: Self)
        requires
            weight@.wf(),
            weight@.ndim() == 1,
        ensures
            r@ == (RMSNormView { weight: weight@, eps }),
            r@.wf(),
    {
        RMSNorm { weight, eps }
    }

    /// Normalizes the rows of `x`.
    pub fn forward(&self, x: &Tensor<T>) -> (r: Tensor<T>)
        requires
            self@.wf(),
            x@.wf(),
            normalizable(x@, self@.weight),
        ensures
            r@.wf(),
            r@.shape == x@.shape,
            functional::<T>() ==> r@ == self@.output(x@),
    {
        x.rms_norm(&self.weight, self.eps)
    }
}

/// The root of the mean of the squares of a row and `eps`.
pub open spec fn root_mean_square<T: Scalar>(row: Seq<T>, eps: T) -> T {
    let squares = Seq::new(row.len(), |j: int| times(row[j], row[j]));
    sqrt(plus(over(total(squares), from_count(row.len() as u64)), eps))
}

/// The squares are added up like any numbers.
pub proof fn lemma_square_sum<T: Scalar>(row: Seq<T>)
    ensures
        square_sum(row) == total(Seq::new(row.len(), |j: int| times(row[j], row[j]))),
    decreases row.len(),
{
    let squares = Seq::new(row.len(), |j: int| times(row[j], row[j]));
    if row.len() > 0 {
        let r = row.drop_last();
        lemma_square_sum(r);
        assert(squares.drop_last() =~= Seq::new(r.len(), |j: int| times(r[j], r[j])));
    }
}

/// Row `i` of a matrix, element by element.
pub proof fn lemma_normalized_at<T: Scalar>(
    norm: RMSNormView<T>,
    x: TensorView<T>,
    i: int,
    j: int,
)
    requires
        norm.wf(),
        x.wf(),
        x.ndim() == 2,
        normalizable(x, norm.weight),
        0 <= i < x.shape[0],
        0 <= j < x.shape[1],
    ensures
        norm.output(x).wf(),
        norm.output(x).shape == x.shape,
        norm.output(x).at(i, j) == normalized_row(
            Seq::new(x.shape[1] as nat, |c: int| x.at(i, c)),
            norm.weight.data,
            norm.eps,
        )[j],
{
    let n = x.shape[1] as int;
    lemma_matrix_wf(x);
    lemma_cell(i, j, x.shape[0] as int, n);
    lemma_row_bounds(x, i);
    let row = Seq::new(x.shape[1] as nat, |c: int| x.at(i, c));
    assert(x.data.subrange(i * n, i * n + n) =~= row);
}

/// Normalizing divides a row by the root of its mean square: where the weight is one,
/// multiplying by that root gives the element back, wherever multiplying undoes
/// dividing.
pub proof fn normalizing_undone<T: Scalar>(
    norm: RMSNormView<T>,
    x: TensorView<T>,
    i: int,
    j: int,
)
    requires
        norm.wf(),
        x.wf(),
        x.ndim() == 2,
        normalizable(x, norm.weight),
        0 <= i < x.shape[0],
        0 <= j < x.shape[1],
        norm.weight.data[j] == one::<T>(),
        one_is_neutral::<T>(),
        ({
            let r = root_mean_square(
                Seq::new(x.shape[1] as nat, |c: int| x.at(i, c)),
                norm.eps,
            );
            times(times(x.at(i, j), over(one(), r)), r) == x.at(i, j)
        }),
    ensures
        times(
            norm.output(x).at(i, j),
            root_mean_square(Seq::new(x.shape[1] as nat, |c: int| x.at(i, c)), norm.eps),
        ) == x.at(i, j),
{
    let row = Seq::new(x.shape[1] as nat, |c: int| x.at(i, c));
    lemma_normalized_at(norm, x, i, j);
    lemma_square_sum(row);
}

/// The weight comes last: each element is what a norm with weight one makes of it,
/// times its weight.
pub proof fn weighing_comes_last<T: Scalar>(
    norm: RMSNormView<T>,
    plain: RMSNormView<T>,
    x: TensorView<T>,
    i: int,
    j: int,
)
    requires
        norm.wf(),
        plain.wf(),
        x.wf(),
        x.ndim() == 2,
        normalizable(x, norm.weight),
        normalizable(x, plain.weight),
        norm.eps == plain.eps,
        0 <= i < x.shape[0],
        0 <= j < x.shape[1],
        plain.weight.data[j] == one::<T>(),
        one_is_neutral::<T>(),
    ensures
        norm.output(x).at(i, j) == times(plain.output(x).at(i, j), norm.weight.data[j]),
{
    lemma_normalized_at(norm, x, i, j);
    lemma_normalized_at(plain, x, i, j);
}

} // verus!
