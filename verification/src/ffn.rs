//! The SwiGLU feed-forward network.
use crate::index::product_fits;
use crate::matrix;
use crate::pointwise;
use crate::scalar::{
    adds_nothing, exp, functional, negated, one, one_is_neutral, over, plus, times, zero, Scalar,
};
use crate::softmax;
use crate::tensor::{lemma_matrix_at, lemma_matrix_ext, lemma_matrix_wf, Tensor, TensorView};
use vstd::prelude::*;

verus! {

/// The weights of a feed-forward network, each with a row for every output.
#[verifier::ext_equal]
pub struct FeedForwardView<T> {
    pub gate_proj: TensorView<T>,
    pub up_proj: TensorView<T>,
    pub down_proj: TensorView<T>,
}

/// `x` times the transpose of `weight`: what a linear layer computes.
pub open spec fn linear<T: Scalar>(x: TensorView<T>, weight: TensorView<T>) -> TensorView<T> {
    matrix::product(x, matrix::transposed(weight))
}

impl<T: Scalar> FeedForwardView<T> {
    /// Whether the three weights are matrices that fit one another.
    pub open spec fn wf(self) -> bool {
        &&& self.gate_proj.wf()
        &&& self.up_proj.wf()
        &&& self.down_proj.wf()
        &&& self.gate_proj.ndim() == 2
        &&& self.up_proj.shape == self.gate_proj.shape
        &&& self.down_proj.ndim() == 2
        &&& self.down_proj.shape[0] == self.gate_proj.shape[1]
        &&& self.down_proj.shape[1] == self.gate_proj.shape[0]
    }

    /// The width of the rows that go in and come out.
    pub open spec fn hidden(self) -> int {
        self.gate_proj.shape[1] as int
    }

    /// The width of the rows in between.
    pub open spec fn intermediate(self) -> int {
        self.gate_proj.shape[0] as int
    }

    /// The rows in between: activated gates times values.
    pub open spec fn gated(self, x: TensorView<T>) -> TensorView<T> {
        pointwise::hadamard(
            pointwise::activated(linear(x, self.gate_proj)),
            linear(x, self.up_proj),
        )
    }

    /// What the network makes of `x`: `down · (SiLU(gate · x) ⊙ (up · x))`.
    pub open spec fn output(self, x: TensorView<T>) -> TensorView<T> {
        linear(self.gated(x), self.down_proj)
    }

    /// Whether the network can take `x`: a matrix of matching width, with rows in
    /// between that can be stored.
    pub open spec fn accepts(self, x: TensorView<T>) -> bool {
        &&& x.wf()
        &&& x.ndim() == 2
        &&& x.shape[1] == self.hidden()
        &&& x.shape[0] * self.intermediate() <= usize::MAX
    }
}

/// A feed-forward network.
pub struct FeedForward<T> {
    gate_proj: Tensor<T>,
    up_proj: Tensor<T>,
    down_proj: Tensor<T>,
}

impl<T> View for FeedForward<T> {
    type V = FeedForwardView<T>;

    closed spec fn view(&self) -> FeedForwardView<T> {
        FeedForwardView {
            gate_proj: self.gate_proj@,
            up_proj: self.up_proj@,
            down_proj: self.down_proj@,
        }
    }
}

impl<T: Scalar> FeedForward<T> {
    /// A network with the given weights.
    pub fn new(gate_proj: Tensor<T>, up_proj: Tensor<T>, down_proj: Tensor<T>) -> (r: Self)
        requires
            (FeedForwardView {
                gate_proj: gate_proj@,
                up_proj: up_proj@,
                down_proj: down_proj@,
            }).wf(),
        ensures
            r@ == (FeedForwardView {
                gate_proj: gate_proj@,
                up_proj: up_proj@,
                down_proj: down_proj@,
            }),
            r@.wf(),
    {
        FeedForward { gate_proj, up_proj, down_proj }
    }

    /// Whether the rows in between can be stored for `seq_len` rows.
    pub fn has_room(&self, seq_len: usize) -> (r: bool)
        requires
            self@.wf(),
        ensures
            r == (seq_len * self@.intermediate() <= usize::MAX),
    {
        let n: usize = self.gate_proj.shape()[0];
        assert(seq_len * n * 1 == seq_len * n) by (nonlinear_arith);
        product_fits(seq_len, n, 1)
    }

    /// Passes the rows of `x` through the network.
    pub fn forward(&self, x: &Tensor<T>) -> (r: Tensor<T>)
        requires
            self@.wf(),
            self@.accepts(x@),
        ensures
            r@.wf(),
            r@.shape == x@.shape,
            functional::<T>() ==> r@ == self@.output(x@),
    {
        proof {
            lemma_matrix_wf(x@);
        }
        let len: usize = x.len();
        let gate = x.matmul(&self.gate_proj.transpose_2d()).silu();
        let up = x.matmul(&self.up_proj.transpose_2d());
        assert(gate@.shape =~= up@.shape);
        let gated = gate.mul_elementwise(&up);
        let out = gated.matmul(&self.down_proj.transpose_2d());
        assert(out@.shape =~= x@.shape);
        out
    }
}

/// Each row goes through the network on its own: where row `i` of `x` is row `l`
/// of `y`, the outputs agree in these rows.
pub proof fn feeding_forward_goes_row_by_row<T: Scalar>(
    net: FeedForwardView<T>,
    x: TensorView<T>,
    i: int,
    y: TensorView<T>,
    l: int,
    j: int,
)
    requires
        net.wf(),
        net.accepts(x),
        net.accepts(y),
        0 <= i < x.shape[0],
        0 <= l < y.shape[0],
        0 <= j < net.hidden(),
        forall|c: int| 0 <= c < net.hidden() ==> #[trigger] x.at(i, c) == y.at(l, c),
    ensures
        net.output(x).at(i, j) == net.output(y).at(l, j),
{
    let n = net.intermediate();
    assert forall|c: int| 0 <= c < n implies #[trigger] net.gated(x).at(i, c) == net.gated(y).at(
        l,
        c,
    ) by {
        matrix::product_goes_row_by_row(x, i, y, l, matrix::transposed(net.gate_proj), c);
        matrix::product_goes_row_by_row(x, i, y, l, matrix::transposed(net.up_proj), c);
        crate::index::lemma_cell(i, c, x.shape[0] as int, n);
        crate::index::lemma_cell(l, c, y.shape[0] as int, n);
    }
    matrix::product_goes_row_by_row(
        net.gated(x),
        i,
        net.gated(y),
        l,
        matrix::transposed(net.down_proj),
        j,
    );
}

/// A linear layer adds up products: each number is the sum, from the first on, of the
/// elements of the row times those of the row of the weight.
pub proof fn linear_adds_products<T: Scalar>(x: TensorView<T>, w: TensorView<T>, i: int, j: int)
    requires
        w.ndim() == 2,
        w.shape[1] == x.shape[1],
        0 <= i < x.shape[0],
        0 <= j < w.shape[0],
    ensures
        linear(x, w).shape == seq![x.shape[0], w.shape[0]],
        linear(x, w).at(i, j) == softmax::total(
            Seq::new(x.shape[1] as nat, |c: int| times(x.at(i, c), w.at(j, c))),
        ),
{
    let k = x.shape[1] as int;
    let b = matrix::transposed(w);
    lemma_matrix_at(
        x.shape[0],
        w.shape[0],
        |r: int, c: int| matrix::dot(x, b, r, c, x.shape[1] as int),
        i,
        j,
    );
    lemma_dot_is_a_total(x, w, i, j, k as nat);
}

proof fn lemma_dot_is_a_total<T: Scalar>(
    x: TensorView<T>,
    w: TensorView<T>,
    i: int,
    j: int,
    k: nat,
)
    requires
        w.ndim() == 2,
        k <= w.shape[1],
        0 <= j < w.shape[0],
    ensures
        matrix::dot(x, matrix::transposed(w), i, j, k as int) == softmax::total(
            Seq::new(k, |c: int| times(x.at(i, c), w.at(j, c))),
        ),
    decreases k,
{
    let s = Seq::new(k, |c: int| times(x.at(i, c), w.at(j, c)));
    if k > 0 {
        lemma_dot_is_a_total(x, w, i, j, (k - 1) as nat);
        matrix::transposing_exchanges(w, j, k - 1);
        assert(s.drop_last() =~= Seq::new(
            (k - 1) as nat,
            |c: int| times(x.at(i, c), w.at(j, c)),
        ));
    }
}

/// A linear layer whose weight is the identity passes rows on, wherever sums over a row
/// select its elements.
pub proof fn linear_by_the_identity<T: Scalar>(x: TensorView<T>, w: TensorView<T>)
    requires
        x.wf(),
        x.ndim() == 2,
        matrix::is_identity(w),
        w.shape[0] == x.shape[1],
        matrix::rows_select(x),
    ensures
        linear(x, w) == x,
{
    let n = w.shape[0];
    let e = matrix::transposed(w);
    lemma_matrix_wf(w);
    lemma_matrix_wf(e);
    assert forall|i: int, j: int| 0 <= i < n && 0 <= j < n implies #[trigger] e.at(i, j) == (if i
        == j {
        one::<T>()
    } else {
        zero::<T>()
    }) by {
        matrix::transposing_exchanges(w, j, i);
    }
    assert(0 <= n * n) by (nonlinear_arith);
    matrix::multiplying_by_the_identity(x, e);
}

/// A linear layer whose weight is zero gives zeros, wherever what has no share adds
/// nothing.
pub proof fn linear_by_zeros<T: Scalar>(x: TensorView<T>, w: TensorView<T>)
    requires
        x.ndim() == 2,
        matrix::is_zero(w),
        w.shape[1] == x.shape[1],
        forall|i: int, c: int|
            0 <= i < x.shape[0] && 0 <= c < x.shape[1] ==> adds_nothing(#[trigger] x.at(i, c)),
    ensures
        matrix::is_zero(linear(x, w)),
        linear(x, w).shape == seq![x.shape[0], w.shape[0]],
{
    let z = matrix::transposed(w);
    lemma_matrix_wf(w);
    lemma_matrix_wf(z);
    assert(w.shape[0] * w.shape[1] == w.shape[1] * w.shape[0]) by (nonlinear_arith);
    assert(0 <= w.shape[1] * w.shape[0]) by (nonlinear_arith);
    assert forall|i: int, j: int|
        0 <= i < z.shape[0] && 0 <= j < z.shape[1] implies #[trigger] z.at(i, j) == zero::<T>() by {
        matrix::transposing_exchanges(w, j, i);
    }
    matrix::multiplying_by_zeros(x, z);
}

/// What stands between the projections: SiLU of what `gate_proj` gives, times what
/// `up_proj` gives.
pub proof fn gates_weigh_values<T: Scalar>(net: FeedForwardView<T>, x: TensorView<T>, i: int, c: int)
    requires
        net.wf(),
        net.accepts(x),
        0 <= i < x.shape[0],
        0 <= c < net.intermediate(),
    ensures
        net.gated(x).is_matrix(x.shape[0] as int, net.intermediate()),
        net.gated(x).wf(),
        net.gated(x).at(i, c) == times(
            pointwise::silu_of(linear(x, net.gate_proj).at(i, c)),
            linear(x, net.up_proj).at(i, c),
        ),
{
    let n = net.intermediate();
    crate::index::lemma_cell(i, c, x.shape[0] as int, n);
    lemma_matrix_wf(net.gated(x));
}

/// SiLU is on the way of `gate_proj`: where `up_proj` gives one everywhere, the network is
/// the last projection of SiLU of what `gate_proj` gives, each number over one and e to its
/// negative.
pub proof fn gates_are_activated<T: Scalar>(
    net: FeedForwardView<T>,
    x: TensorView<T>,
    active: TensorView<T>,
)
    requires
        net.wf(),
        net.accepts(x),
        one_is_neutral::<T>(),
        forall|i: int, c: int|
            0 <= i < x.shape[0] && 0 <= c < net.intermediate() ==> #[trigger] linear(
                x,
                net.up_proj,
            ).at(i, c) == one::<T>(),
        active.wf(),
        active.is_matrix(x.shape[0] as int, net.intermediate()),
        forall|i: int, c: int|
            0 <= i < x.shape[0] && 0 <= c < net.intermediate() ==> #[trigger] active.at(i, c) == ({
                let g = linear(x, net.gate_proj).at(i, c);
                times(g, over(one(), plus(one(), exp(negated(g)))))
            }),
    ensures
        net.output(x) == linear(active, net.down_proj),
{
    let (m, n) = (x.shape[0] as int, net.intermediate());
    let between = net.gated(x);
    assert forall|i: int, c: int| 0 <= i < m && 0 <= c < n implies #[trigger] between.at(i, c)
        == active.at(i, c) by {
        gates_weigh_values(net, x, i, c);
        assert(linear(x, net.up_proj).at(i, c) == one::<T>());
    }
    lemma_matrix_wf(between);
    assert(between.wf()) by {
        lemma_matrix_wf(active);
    }
    lemma_matrix_ext(between, active, m, n);
}

/// The network is linear in what `up_proj` gives: where `gate_proj` gives one everywhere,
/// each number in between is SiLU of one times that number.
pub proof fn values_are_gated<T: Scalar>(
    net: FeedForwardView<T>,
    x: TensorView<T>,
    between: TensorView<T>,
)
    requires
        net.wf(),
        net.accepts(x),
        forall|i: int, c: int|
            0 <= i < x.shape[0] && 0 <= c < net.intermediate() ==> #[trigger] linear(
                x,
                net.gate_proj,
            ).at(i, c) == one::<T>(),
        between.wf(),
        between.is_matrix(x.shape[0] as int, net.intermediate()),
        forall|i: int, c: int|
            0 <= i < x.shape[0] && 0 <= c < net.intermediate() ==> #[trigger] between.at(i, c)
                == times(pointwise::silu_of(one::<T>()), linear(x, net.up_proj).at(i, c)),
    ensures
        net.output(x) == linear(between, net.down_proj),
{
    let (m, n) = (x.shape[0] as int, net.intermediate());
    let gated = net.gated(x);
    assert forall|i: int, c: int| 0 <= i < m && 0 <= c < n implies #[trigger] gated.at(i, c)
        == between.at(i, c) by {
        gates_weigh_values(net, x, i, c);
        assert(linear(x, net.gate_proj).at(i, c) == one::<T>());
    }
    lemma_matrix_wf(gated);
    lemma_matrix_wf(between);
    lemma_matrix_ext(gated, between, m, n);
}

/// Gates and values are told apart: of two networks and inputs, where the gates agree in
/// a number and the values of the first are the values of the second times a factor,
/// what stands in between differs by that factor, wherever factors can be taken out.
pub proof fn values_scale_the_network<T: Scalar>(
    net: FeedForwardView<T>,
    other: FeedForwardView<T>,
    x: TensorView<T>,
    y: TensorView<T>,
    factor: T,
    i: int,
    c: int,
)
    requires
        net.wf(),
        other.wf(),
        net.accepts(x),
        other.accepts(y),
        0 <= i < x.shape[0],
        0 <= i < y.shape[0],
        0 <= c < net.intermediate(),
        0 <= c < other.intermediate(),
        linear(x, net.gate_proj).at(i, c) == linear(y, other.gate_proj).at(i, c),
        linear(x, net.up_proj).at(i, c) == times(linear(y, other.up_proj).at(i, c), factor),
        forall|a: T, b: T| #[trigger] times(a, times(b, factor)) == times(times(a, b), factor),
    ensures
        net.gated(x).at(i, c) == times(other.gated(y).at(i, c), factor),
{
    gates_weigh_values(net, x, i, c);
    gates_weigh_values(other, y, i, c);
    let a = pointwise::silu_of(linear(y, other.gate_proj).at(i, c));
    let b = linear(y, other.up_proj).at(i, c);
    assert(times(a, times(b, factor)) == times(times(a, b), factor));
}

} // verus!
