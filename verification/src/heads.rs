//! Tensors of three dimensions as attention uses them: positions, heads and the
//! dimensions of a head.
use crate::index::lemma_place;
use crate::rmsnorm;
use crate::rmsnorm::RMSNorm;
use crate::rope;
use crate::rope::{lemma_cube_cell, lemma_cube_volume};
use crate::scalar::{functional, lowest, one, plus, times, zero, Scalar};
use crate::softmax;
use crate::tensor::{lemma_matrix_wf, Tensor, TensorView};
use vstd::prelude::*;

verus! {

/// Every head repeated `groups` times in a row.
pub open spec fn expanded<T>(x: TensorView<T>, groups: usize) -> TensorView<T> {
    rope::cube(
        x.shape[0],
        (x.shape[1] * groups) as usize,
        x.shape[2],
        |s: int, h: int, d: int| rope::at3(x, s, h / groups as int, d),
    )
}

/// The first two dimensions exchanged.
pub open spec fn swapped<T>(x: TensorView<T>) -> TensorView<T> {
    rope::cube(
        x.shape[1],
        x.shape[0],
        x.shape[2],
        |i: int, j: int, d: int| rope::at3(x, j, i, d),
    )
}

/// The first `n` products of query row `i` with key row `j` of head `h`, added from
/// the first on.
pub open spec fn qk_dot<T: Scalar>(
    q: TensorView<T>,
    k: TensorView<T>,
    h: int,
    i: int,
    j: int,
    n: int,
) -> T
    decreases n,
{
    if n <= 0 {
        zero()
    } else {
        plus(
            qk_dot(q, k, h, i, j, n - 1),
            times(rope::at3(q, h, i, n - 1), rope::at3(k, h, j, n - 1)),
        )
    }
}

/// How well each query fits each key, head by head.
pub open spec fn fits<T: Scalar>(q: TensorView<T>, k: TensorView<T>) -> TensorView<T> {
    rope::cube(
        q.shape[0],
        q.shape[1],
        k.shape[1],
        |h: int, i: int, j: int| qk_dot(q, k, h, i, j, q.shape[2] as int),
    )
}

/// Dimension `d` of the first `n` values of head `h`, each times the weight that
/// query `i` gives it, added from the first on.
pub open spec fn av_dot<T: Scalar>(
    attn: TensorView<T>,
    v: TensorView<T>,
    h: int,
    i: int,
    d: int,
    n: int,
) -> T
    decreases n,
{
    if n <= 0 {
        zero()
    } else {
        plus(
            av_dot(attn, v, h, i, d, n - 1),
            times(rope::at3(attn, h, i, n - 1), rope::at3(v, h, n - 1, d)),
        )
    }
}

/// The values weighted for each query, head by head.
pub open spec fn weighted<T: Scalar>(attn: TensorView<T>, v: TensorView<T>) -> TensorView<T> {
    rope::cube(
        attn.shape[0],
        attn.shape[1],
        v.shape[2],
        |h: int, i: int, d: int| av_dot(attn, v, h, i, d, attn.shape[2] as int),
    )
}

/// The scores with every key after the position of its query put out of reach. The
/// first query stands at position `start_pos`.
pub open spec fn masked<T: Scalar>(scores: TensorView<T>, start_pos: int) -> TensorView<T> {
    rope::cube(
        scores.shape[0],
        scores.shape[1],
        scores.shape[2],
        |h: int, i: int, j: int|
            if j > start_pos + i {
                lowest()
            } else {
                rope::at3(scores, h, i, j)
            },
    )
}

/// The same elements in another shape.
pub open spec fn reshaped<T>(x: TensorView<T>, shape: Seq<usize>) -> TensorView<T> {
    TensorView { shape, data: x.data }
}

/// Every head of every position normalized on its own.
pub open spec fn heads_normalized<T: Scalar>(
    x: TensorView<T>,
    norm: rmsnorm::RMSNormView<T>,
) -> TensorView<T> {
    reshaped(
        norm.output(reshaped(x, seq![(x.shape[0] * x.shape[1]) as usize, x.shape[2]])),
        x.shape,
    )
}

/// Two tensors of one shape of three dimensions that agree in each element are the
/// same.
pub proof fn lemma_cube_ext<T>(x: TensorView<T>, y: TensorView<T>)
    requires
        x.wf(),
        y.wf(),
        x.ndim() == 3,
        x.shape == y.shape,
        forall|i: int, j: int, k: int|
            0 <= i < x.shape[0] && 0 <= j < x.shape[1] && 0 <= k < x.shape[2]
                ==> #[trigger] rope::at3(x, i, j, k) == rope::at3(y, i, j, k),
    ensures
        x == y,
{
    let (a, b, c) = (x.shape[0] as int, x.shape[1] as int, x.shape[2] as int);
    lemma_cube_volume(x.shape);
    assert forall|p: int| 0 <= p < x.data.len() implies x.data[p] == y.data[p] by {
        lemma_place(p, a * b, c);
        lemma_place(p / c, a, b);
        assert(rope::at3(x, (p / c) / b, (p / c) % b, p % c) == x.data[p]);
    }
    assert(x.data =~= y.data);
}

/// A tensor of three dimensions has what its definition says in each place.
pub proof fn lemma_cube_at<T>(
    a: usize,
    b: usize,
    c: usize,
    f: spec_fn(int, int, int) -> T,
)
    ensures
        rope::cube(a, b, c, f).wf(),
        forall|i: int, j: int, k: int|
            0 <= i < a && 0 <= j < b && 0 <= k < c ==> #[trigger] rope::at3(
                rope::cube(a, b, c, f),
                i,
                j,
                k,
            ) == f(i, j, k),
{
    let t = rope::cube(a, b, c, f);
    lemma_cube_volume(t.shape);
    assert(0 <= a * b * c) by (nonlinear_arith);
    assert forall|i: int, j: int, k: int|
        0 <= i < a && 0 <= j < b && 0 <= k < c implies #[trigger] rope::at3(t, i, j, k) == f(
        i,
        j,
        k,
    ) by {
        lemma_cube_cell(i, j, k, a as int, b as int, c as int);
    }
}

/// Builds a tensor of three dimensions from a function of the indices. Where
/// `exact` holds, `f` computes `g`, and the tensor is that of `g`.
fn build_cube<T: Copy, F: Fn(usize, usize, usize) -> T>(
    a: usize,
    b: usize,
    c: usize,
    f: F,
    Ghost(g): Ghost<spec_fn(int, int, int) -> T>,
    Ghost(exact): Ghost<bool>,
) -> (r: Tensor<T>)
    requires
        a * b * c <= usize::MAX,
        forall|i: usize, j: usize, k: usize|
            i < a && j < b && k < c ==> #[trigger] call_requires(f, (i, j, k)),
        forall|i: usize, j: usize, k: usize, v: T|
            i < a && j < b && k < c && exact && #[trigger] call_ensures(f, (i, j, k), v) ==> v == g(
                i as int,
                j as int,
                k as int,
            ),
    ensures
        r@.wf(),
        r@.shape == seq![a, b, c],
        exact ==> r@ == rope::cube(a, b, c, g),
{
    let mut data: Vec<T> = Vec::new();
    let ghost expected = rope::cube(a, b, c, g).data;
    let mut i: usize = 0;
    assert(0 * b * c == 0) by (nonlinear_arith);
    while i < a
        invariant
            i <= a,
            a * b * c <= usize::MAX,
            forall|i: usize, j: usize, k: usize|
                i < a && j < b && k < c ==> #[trigger] call_requires(f, (i, j, k)),
            forall|i: usize, j: usize, k: usize, v: T|
                i < a && j < b && k < c && exact && #[trigger] call_ensures(f, (i, j, k), v) ==> v
                    == g(i as int, j as int, k as int),
            expected == rope::cube(a, b, c, g).data,
            data@.len() == i * b * c,
            exact ==> forall|p: int| 0 <= p < data@.len() ==> #[trigger] data@[p] == expected[p],
        decreases a - i,
    {
        let mut j: usize = 0;
        assert(i * b * c == (i * b + 0) * c);
        while j < b
            invariant
                i < a,
                j <= b,
                a * b * c <= usize::MAX,
                forall|i: usize, j: usize, k: usize|
                    i < a && j < b && k < c ==> #[trigger] call_requires(f, (i, j, k)),
                forall|i: usize, j: usize, k: usize, v: T|
                    i < a && j < b && k < c && exact && #[trigger] call_ensures(f, (i, j, k), v)
                        ==> v == g(i as int, j as int, k as int),
                expected == rope::cube(a, b, c, g).data,
                data@.len() == (i * b + j) * c,
                exact ==> forall|p: int|
                    0 <= p < data@.len() ==> #[trigger] data@[p] == expected[p],
            decreases b - j,
        {
            let mut k: usize = 0;
            while k < c
                invariant
                    i < a,
                    j < b,
                    k <= c,
                    a * b * c <= usize::MAX,
                    forall|i: usize, j: usize, k: usize|
                        i < a && j < b && k < c ==> #[trigger] call_requires(f, (i, j, k)),
                    forall|i: usize, j: usize, k: usize, v: T|
                        i < a && j < b && k < c && exact && #[trigger] call_ensures(
                            f,
                            (i, j, k),
                            v,
                        ) ==> v == g(i as int, j as int, k as int),
                    expected == rope::cube(a, b, c, g).data,
                    data@.len() == (i * b + j) * c + k,
                    exact ==> forall|p: int|
                        0 <= p < data@.len() ==> #[trigger] data@[p] == expected[p],
                decreases c - k,
            {
                proof {
                    lemma_cube_cell(i as int, j as int, k as int, a as int, b as int, c as int);
                }
                let v: T = f(i, j, k);
                data.push(v);
                k = k + 1;
            }
            assert((i * b + j) * c + c == (i * b + (j + 1)) * c) by (nonlinear_arith);
            j = j + 1;
        }
        assert((i * b + b) * c == (i + 1) * b * c) by (nonlinear_arith);
        i = i + 1;
    }
    let shape: Vec<usize> = vec![a, b, c];
    proof {
        assert(shape@ =~= seq![a, b, c]);
        lemma_cube_volume(shape@);
        assert(exact ==> data@ =~= expected);
    }
    Tensor::new(shape, data)
}

/// The element at `i`, `j`, `k`.
fn element<T: Copy>(x: &Tensor<T>, i: usize, j: usize, k: usize) -> (r: T)
    requires
        x@.wf(),
        x@.ndim() == 3,
        i < x@.shape[0],
        j < x@.shape[1],
        k < x@.shape[2],
    ensures
        r == rope::at3(x@, i as int, j as int, k as int),
{
    let b: usize = x.shape()[1];
    let c: usize = x.shape()[2];
    let len: usize = x.len();
    proof {
        lemma_cube_volume(x@.shape);
        lemma_cube_cell(i as int, j as int, k as int, x@.shape[0] as int, b as int, c as int);
        assert(i * b + j <= (i * b + j) * c) by (nonlinear_arith)
            requires
                c >= 1,
                i * b + j >= 0,
        ;
        assert(0 <= i * b) by (nonlinear_arith);
    }
    x.data()[(i * b + j) * c + k]
}

/// Repeats every head `kv_groups` times in a row.
pub fn expand_kv_heads<T: Copy>(x: &Tensor<T>, kv_groups: usize) -> (r: Tensor<T>)
    requires
        x@.wf(),
        x@.ndim() == 3,
        x@.shape[1] * kv_groups <= usize::MAX,
        x@.shape[0] * (x@.shape[1] * kv_groups) * x@.shape[2] <= usize::MAX,
    ensures
        r@.wf(),
        r@ == expanded(x@, kv_groups),
{
    let s: usize = x.shape()[0];
    let n: usize = x.shape()[1];
    let d: usize = x.shape()[2];
    let heads: usize = n * kv_groups;
    let ghost g = |i: int, h: int, k: int| rope::at3(x@, i, h / kv_groups as int, k);
    let f = |i: usize, h: usize, k: usize| -> (v: T)
        requires
            i < s && h < heads && k < d,
        ensures
            v == g(i as int, h as int, k as int)
        {
            proof {
                lemma_place(h as int, n as int, kv_groups as int);
            }
            element(x, i, h / kv_groups, k)
        };
    build_cube(s, heads, d, f, Ghost(g), Ghost(true))
}

/// Exchanges positions and heads: from `[positions, heads, dim]` to
/// `[heads, positions, dim]`.
pub fn transpose_heads<T: Copy>(x: &Tensor<T>) -> (r: Tensor<T>)
    requires
        x@.wf(),
        x@.ndim() == 3,
    ensures
        r@.wf(),
        r@ == swapped(x@),
{
    let s: usize = x.shape()[0];
    let h: usize = x.shape()[1];
    let d: usize = x.shape()[2];
    let len: usize = x.len();
    proof {
        lemma_cube_volume(x@.shape);
        assert(h * s * d == s * h * d) by (nonlinear_arith);
    }
    let ghost g = |i: int, j: int, k: int| rope::at3(x@, j, i, k);
    let f = |i: usize, j: usize, k: usize| -> (v: T)
        requires
            i < h && j < s && k < d,
        ensures
            v == g(i as int, j as int, k as int)
        { element(x, j, i, k) };
    build_cube(h, s, d, f, Ghost(g), Ghost(true))
}

/// Exchanges heads and positions back: from `[heads, positions, dim]` to
/// `[positions, heads, dim]`.
pub fn untranspose_heads<T: Copy>(x: &Tensor<T>) -> (r: Tensor<T>)
    requires
        x@.wf(),
        x@.ndim() == 3,
    ensures
        r@.wf(),
        r@ == swapped(x@),
{
    transpose_heads(x)
}

fn row_product<T: Scalar>(q: &Tensor<T>, k: &Tensor<T>, h: usize, i: usize, j: usize) -> (r: T)
    requires
        q@.wf(),
        k@.wf(),
        q@.ndim() == 3,
        k@.ndim() == 3,
        q@.shape[0] == k@.shape[0],
        q@.shape[2] == k@.shape[2],
        h < q@.shape[0],
        i < q@.shape[1],
        j < k@.shape[1],
    ensures
        functional::<T>() ==> r == qk_dot(
            q@,
            k@,
            h as int,
            i as int,
            j as int,
            q@.shape[2] as int,
        ),
{
    let d: usize = q.shape()[2];
    let mut sum: T = zero();
    let mut n: usize = 0;
    while n < d
        invariant
            n <= d,
            d == q@.shape[2],
            q@.wf(),
            k@.wf(),
            q@.ndim() == 3,
            k@.ndim() == 3,
            q@.shape[0] == k@.shape[0],
            q@.shape[2] == k@.shape[2],
            h < q@.shape[0],
            i < q@.shape[1],
            j < k@.shape[1],
            functional::<T>() ==> sum == qk_dot(q@, k@, h as int, i as int, j as int, n as int),
        decreases d - n,
    {
        sum = plus(sum, times(element(q, h, i, n), element(k, h, j, n)));
        n = n + 1;
    }
    sum
}

/// Multiplies the queries of each head with its keys.
pub fn batch_matmul_qk<T: Scalar>(q: &Tensor<T>, k: &Tensor<T>) -> (r: Tensor<T>)
    requires
        q@.wf(),
        k@.wf(),
        q@.ndim() == 3,
        k@.ndim() == 3,
        q@.shape[0] == k@.shape[0],
        q@.shape[2] == k@.shape[2],
        q@.shape[0] * q@.shape[1] * k@.shape[1] <= usize::MAX,
    ensures
        r@.wf(),
        r@.shape == seq![q@.shape[0], q@.shape[1], k@.shape[1]],
        functional::<T>() ==> r@ == fits(q@, k@),
{
    let heads: usize = q.shape()[0];
    let m: usize = q.shape()[1];
    let n: usize = k.shape()[1];
    let ghost g = |h: int, i: int, j: int| qk_dot(q@, k@, h, i, j, q@.shape[2] as int);
    let f = |h: usize, i: usize, j: usize| -> (v: T)
        requires
            h < heads && i < m && j < n,
        ensures
            functional::<T>() ==> v == g(h as int, i as int, j as int)
        { row_product(q, k, h, i, j) };
    build_cube(heads, m, n, f, Ghost(g), Ghost(functional::<T>()))
}

fn weighted_value<T: Scalar>(attn: &Tensor<T>, v: &Tensor<T>, h: usize, i: usize, d: usize) -> (r:
    T)
    requires
        attn@.wf(),
        v@.wf(),
        attn@.ndim() == 3,
        v@.ndim() == 3,
        attn@.shape[0] == v@.shape[0],
        attn@.shape[2] == v@.shape[1],
        h < attn@.shape[0],
        i < attn@.shape[1],
        d < v@.shape[2],
    ensures
        functional::<T>() ==> r == av_dot(
            attn@,
            v@,
            h as int,
            i as int,
            d as int,
            attn@.shape[2] as int,
        ),
{
    let keys: usize = attn.shape()[2];
    let mut sum: T = zero();
    let mut n: usize = 0;
    while n < keys
        invariant
            n <= keys,
            keys == attn@.shape[2],
            attn@.wf(),
            v@.wf(),
            attn@.ndim() == 3,
            v@.ndim() == 3,
            attn@.shape[0] == v@.shape[0],
            attn@.shape[2] == v@.shape[1],
            h < attn@.shape[0],
            i < attn@.shape[1],
            d < v@.shape[2],
            functional::<T>() ==> sum == av_dot(
                attn@,
                v@,
                h as int,
                i as int,
                d as int,
                n as int,
            ),
        decreases keys - n,
    {
        sum = plus(sum, times(element(attn, h, i, n), element(v, h, n, d)));
        n = n + 1;
    }
    sum
}

/// Weights the values of each head for its queries.
pub fn batch_matmul_attn_v<T: Scalar>(attn: &Tensor<T>, v: &Tensor<T>) -> (r: Tensor<T>)
    requires
        attn@.wf(),
        v@.wf(),
        attn@.ndim() == 3,
        v@.ndim() == 3,
        attn@.shape[0] == v@.shape[0],
        attn@.shape[2] == v@.shape[1],
        attn@.shape[0] * attn@.shape[1] * v@.shape[2] <= usize::MAX,
    ensures
        r@.wf(),
        r@.shape == seq![attn@.shape[0], attn@.shape[1], v@.shape[2]],
        functional::<T>() ==> r@ == weighted(attn@, v@),
{
    let heads: usize = attn.shape()[0];
    let m: usize = attn.shape()[1];
    let dim: usize = v.shape()[2];
    let ghost g = |h: int, i: int, d: int| av_dot(attn@, v@, h, i, d, attn@.shape[2] as int);
    let f = |h: usize, i: usize, d: usize| -> (x: T)
        requires
            h < heads && i < m && d < dim,
        ensures
            functional::<T>() ==> x == g(h as int, i as int, d as int)
        { weighted_value(attn, v, h, i, d) };
    build_cube(heads, m, dim, f, Ghost(g), Ghost(functional::<T>()))
}

/// Puts every key after the position of its query out of reach.
pub fn apply_causal_mask<T: Scalar>(
    scores: Tensor<T>,
    start_pos: usize,
    seq_len: usize,
    total_seq_len: usize,
) -> (r: Tensor<T>)
    requires
        scores@.wf(),
        scores@.ndim() == 3,
        scores@.shape[1] == seq_len,
        scores@.shape[2] == total_seq_len,
        start_pos + seq_len <= usize::MAX,
    ensures
        r@.wf(),
        r@.shape == scores@.shape,
        functional::<T>() ==> r@ == masked(scores@, start_pos as int),
{
    let heads: usize = scores.shape()[0];
    let len: usize = scores.len();
    let view = &scores;
    proof {
        lemma_cube_volume(scores@.shape);
        assert(seq![heads, seq_len, total_seq_len] =~= scores@.shape);
    }
    let ghost g = |h: int, i: int, j: int|
        if j > start_pos + i {
            lowest()
        } else {
            rope::at3(scores@, h, i, j)
        };
    let f = |h: usize, i: usize, j: usize| -> (v: T)
        requires
            h < heads && i < seq_len && j < total_seq_len,
        ensures
            functional::<T>() ==> v == g(h as int, i as int, j as int)
        {
            if j > start_pos + i {
                lowest()
            } else {
                element(view, h, i, j)
            }
        };
    build_cube(heads, seq_len, total_seq_len, f, Ghost(g), Ghost(functional::<T>()))
}

/// Normalizes every head of every position on its own.
pub fn apply_per_head_norm<T: Scalar>(x: &Tensor<T>, norm: &RMSNorm<T>) -> (r: Tensor<T>)
    requires
        x@.wf(),
        x@.ndim() == 3,
        norm@.wf(),
        norm@.size() == x@.shape[2],
        x@.shape[0] * x@.shape[1] <= usize::MAX,
    ensures
        r@.wf(),
        r@.shape == x@.shape,
        functional::<T>() ==> r@ == heads_normalized(x@, norm@),
{
    let s: usize = x.shape()[0];
    let h: usize = x.shape()[1];
    let d: usize = x.shape()[2];
    let rows: usize = s * h;
    let flat_shape: Vec<usize> = vec![rows, d];
    let full_shape: Vec<usize> = vec![s, h, d];
    proof {
        lemma_cube_volume(x@.shape);
        assert(flat_shape@ =~= seq![rows, d]);
        assert(full_shape@ =~= x@.shape);
        lemma_matrix_wf(TensorView { shape: flat_shape@, data: x@.data });
    }
    let flat = x.reshape(flat_shape);
    let normed = norm.forward(&flat);
    normed.reshape(full_shape)
}

/// Exchanging positions and heads twice gives the tensor back.
pub proof fn swapping_twice<T>(x: TensorView<T>)
    requires
        x.wf(),
        x.ndim() == 3,
    ensures
        swapped(swapped(x)) == x,
{
    let (a, b, c) = (x.shape[0], x.shape[1], x.shape[2]);
    let once = swapped(x);
    let twice = swapped(once);
    lemma_cube_at(b, a, c, |i: int, j: int, d: int| rope::at3(x, j, i, d));
    lemma_cube_at(a, b, c, |i: int, j: int, d: int| rope::at3(once, j, i, d));
    assert(twice.shape =~= x.shape);
    lemma_cube_ext(twice, x);
}

/// With one query head for each key head, no head is repeated.
pub proof fn expanding_by_one<T>(x: TensorView<T>)
    requires
        x.wf(),
        x.ndim() == 3,
    ensures
        expanded(x, 1) == x,
{
    let (a, b, c) = (x.shape[0], x.shape[1], x.shape[2]);
    lemma_cube_at(a, b, c, |s: int, h: int, d: int| rope::at3(x, s, h / 1, d));
    let r = expanded(x, 1);
    assert(r.shape =~= x.shape);
    assert forall|i: int, j: int, k: int|
        0 <= i < a && 0 <= j < b && 0 <= k < c implies #[trigger] rope::at3(r, i, j, k)
        == rope::at3(x, i, j, k) by {
        assert(j / 1 == j);
    }
    lemma_cube_ext(r, x);
}

/// Query heads share key heads in groups: expanded head `h` is head `h / groups`.
pub proof fn expanded_heads_come_in_groups<T>(
    x: TensorView<T>,
    groups: usize,
    s: int,
    h: int,
    d: int,
)
    requires
        x.wf(),
        x.ndim() == 3,
        x.shape[1] * groups <= usize::MAX,
        0 <= s < x.shape[0],
        0 <= h < x.shape[1] * groups,
        0 <= d < x.shape[2],
    ensures
        rope::at3(expanded(x, groups), s, h, d) == rope::at3(x, s, h / groups as int, d),
{
    lemma_cube_at(
        x.shape[0],
        (x.shape[1] * groups) as usize,
        x.shape[2],
        |s: int, h: int, d: int| rope::at3(x, s, h / groups as int, d),
    );
}

/// The mask is causal: a query reaches the keys up to its own position with the
/// scores they had, and no key after it.
pub proof fn masking_is_causal<T: Scalar>(
    scores: TensorView<T>,
    start_pos: int,
    h: int,
    i: int,
    j: int,
)
    requires
        scores.wf(),
        scores.ndim() == 3,
        0 <= h < scores.shape[0],
        0 <= i < scores.shape[1],
        0 <= j < scores.shape[2],
    ensures
        rope::at3(masked(scores, start_pos), h, i, j) == (if j <= start_pos + i {
            rope::at3(scores, h, i, j)
        } else {
            lowest()
        }),
{
    lemma_cube_at(
        scores.shape[0],
        scores.shape[1],
        scores.shape[2],
        |h: int, i: int, j: int|
            if j > start_pos + i {
                lowest()
            } else {
                rope::at3(scores, h, i, j)
            },
    );
}

/// Exchanging positions and heads puts each head where its position was.
pub proof fn swapping_exchanges<T>(x: TensorView<T>, i: int, j: int, d: int)
    requires
        x.ndim() == 3,
        0 <= i < x.shape[0],
        0 <= j < x.shape[1],
        0 <= d < x.shape[2],
    ensures
        swapped(x).shape == seq![x.shape[1], x.shape[0], x.shape[2]],
        rope::at3(swapped(x), j, i, d) == rope::at3(x, i, j, d),
{
    lemma_cube_at(
        x.shape[1],
        x.shape[0],
        x.shape[2],
        |i: int, j: int, d: int| rope::at3(x, j, i, d),
    );
}

/// How well a query fits a key is the sum, from the first dimension on, of its numbers
/// times those of the key.
pub proof fn fits_add_products<T: Scalar>(
    q: TensorView<T>,
    k: TensorView<T>,
    h: int,
    i: int,
    j: int,
)
    requires
        q.ndim() == 3,
        k.ndim() == 3,
        0 <= h < q.shape[0],
        0 <= i < q.shape[1],
        0 <= j < k.shape[1],
    ensures
        rope::at3(fits(q, k), h, i, j) == softmax::total(
            Seq::new(
                q.shape[2] as nat,
                |d: int| times(rope::at3(q, h, i, d), rope::at3(k, h, j, d)),
            ),
        ),
{
    lemma_cube_at(
        q.shape[0],
        q.shape[1],
        k.shape[1],
        |h: int, i: int, j: int| qk_dot(q, k, h, i, j, q.shape[2] as int),
    );
    lemma_qk_is_a_total(q, k, h, i, j, q.shape[2] as nat);
}

proof fn lemma_qk_is_a_total<T: Scalar>(
    q: TensorView<T>,
    k: TensorView<T>,
    h: int,
    i: int,
    j: int,
    n: nat,
)
    ensures
        qk_dot(q, k, h, i, j, n as int) == softmax::total(
            Seq::new(n, |d: int| times(rope::at3(q, h, i, d), rope::at3(k, h, j, d))),
        ),
    decreases n,
{
    let s = Seq::new(n, |d: int| times(rope::at3(q, h, i, d), rope::at3(k, h, j, d)));
    if n > 0 {
        lemma_qk_is_a_total(q, k, h, i, j, (n - 1) as nat);
        assert(s.drop_last() =~= Seq::new(
            (n - 1) as nat,
            |d: int| times(rope::at3(q, h, i, d), rope::at3(k, h, j, d)),
        ));
    }
}

/// What a query gathers is the sum, from the first key on, of its weights times the
/// values.
pub proof fn weights_add_products<T: Scalar>(
    attn: TensorView<T>,
    v: TensorView<T>,
    h: int,
    i: int,
    d: int,
)
    requires
        attn.ndim() == 3,
        v.ndim() == 3,
        0 <= h < attn.shape[0],
        0 <= i < attn.shape[1],
        0 <= d < v.shape[2],
    ensures
        rope::at3(weighted(attn, v), h, i, d) == softmax::total(
            Seq::new(
                attn.shape[2] as nat,
                |j: int| times(rope::at3(attn, h, i, j), rope::at3(v, h, j, d)),
            ),
        ),
{
    lemma_cube_at(
        attn.shape[0],
        attn.shape[1],
        v.shape[2],
        |h: int, i: int, d: int| av_dot(attn, v, h, i, d, attn.shape[2] as int),
    );
    lemma_av_is_a_total(attn, v, h, i, d, attn.shape[2] as nat);
}

proof fn lemma_av_is_a_total<T: Scalar>(
    attn: TensorView<T>,
    v: TensorView<T>,
    h: int,
    i: int,
    d: int,
    n: nat,
)
    ensures
        av_dot(attn, v, h, i, d, n as int) == softmax::total(
            Seq::new(n, |j: int| times(rope::at3(attn, h, i, j), rope::at3(v, h, j, d))),
        ),
    decreases n,
{
    let s = Seq::new(n, |j: int| times(rope::at3(attn, h, i, j), rope::at3(v, h, j, d)));
    if n > 0 {
        lemma_av_is_a_total(attn, v, h, i, d, (n - 1) as nat);
        assert(s.drop_last() =~= Seq::new(
            (n - 1) as nat,
            |j: int| times(rope::at3(attn, h, i, j), rope::at3(v, h, j, d)),
        ));
    }
}

/// A query that gives all its weight to one key gathers the value of that key, wherever
/// nothing of a number adds nothing and all of it is the number.
pub proof fn one_weight_picks_one_value<T: Scalar>(
    attn: TensorView<T>,
    v: TensorView<T>,
    h: int,
    i: int,
    d: int,
    key: int,
)
    requires
        attn.ndim() == 3,
        v.ndim() == 3,
        0 <= h < attn.shape[0],
        0 <= i < attn.shape[1],
        0 <= d < v.shape[2],
        0 <= key < attn.shape[2],
        forall|j: int|
            0 <= j < attn.shape[2] ==> #[trigger] rope::at3(attn, h, i, j) == (if j == key {
                one::<T>()
            } else {
                zero::<T>()
            }),
        forall|j: int|
            0 <= j < attn.shape[2] ==> plus(
                zero(),
                times(zero(), #[trigger] rope::at3(v, h, j, d)),
            ) == zero::<T>(),
        forall|j: int|
            0 <= j < attn.shape[2] ==> plus(
                rope::at3(v, h, key, d),
                times(zero(), #[trigger] rope::at3(v, h, j, d)),
            ) == rope::at3(v, h, key, d),
        plus(zero(), times(one(), rope::at3(v, h, key, d))) == rope::at3(v, h, key, d),
    ensures
        rope::at3(weighted(attn, v), h, i, d) == rope::at3(v, h, key, d),
{
    lemma_cube_at(
        attn.shape[0],
        attn.shape[1],
        v.shape[2],
        |h: int, i: int, d: int| av_dot(attn, v, h, i, d, attn.shape[2] as int),
    );
    lemma_av_picks(attn, v, h, i, d, key, attn.shape[2] as int);
}

proof fn lemma_av_picks<T: Scalar>(
    attn: TensorView<T>,
    v: TensorView<T>,
    h: int,
    i: int,
    d: int,
    key: int,
    n: int,
)
    requires
        0 <= n,
        0 <= key,
        forall|j: int|
            0 <= j < n ==> #[trigger] rope::at3(attn, h, i, j) == (if j == key {
                one::<T>()
            } else {
                zero::<T>()
            }),
        forall|j: int|
            0 <= j < n ==> plus(zero(), times(zero(), #[trigger] rope::at3(v, h, j, d))) == zero::<
                T,
            >(),
        forall|j: int|
            0 <= j < n ==> plus(
                rope::at3(v, h, key, d),
                times(zero(), #[trigger] rope::at3(v, h, j, d)),
            ) == rope::at3(v, h, key, d),
        plus(zero(), times(one(), rope::at3(v, h, key, d))) == rope::at3(v, h, key, d),
    ensures
        av_dot(attn, v, h, i, d, n) == (if key < n {
            rope::at3(v, h, key, d)
        } else {
            zero::<T>()
        }),
    decreases n,
{
    if n > 0 {
        lemma_av_picks(attn, v, h, i, d, key, n - 1);
        let e = rope::at3(v, h, n - 1, d);
        assert(rope::at3(attn, h, i, n - 1) == (if n - 1 == key {
            one::<T>()
        } else {
            zero::<T>()
        }));
    }
}

} // verus!
