//! What the causal mask makes of attention: a query looks back only.
use crate::attention::AttentionView;
use crate::heads;
use crate::heads::{lemma_cube_at, masking_is_causal};
use crate::index::lemma_cell;
use crate::pointwise;
use crate::rope;
use crate::rope::{lemma_cube_cell, lemma_cube_volume};
use crate::scalar::{exp, lowest, minus, over, zero, Scalar};
use crate::softmax;
use crate::tensor::{volume, TensorView};
use vstd::prelude::*;

verus! {

/// Row `i` of head `h`.
pub open spec fn head_row<T>(t: TensorView<T>, h: int, i: int) -> Seq<T> {
    Seq::new(t.shape[2] as nat, |j: int| rope::at3(t, h, i, j))
}

/// Softmax along the last of three dimensions goes row by row.
pub proof fn soft_rows<T: Scalar>(t: TensorView<T>, h: int, i: int, j: int)
    requires
        t.wf(),
        t.ndim() == 3,
        0 <= h < t.shape[0],
        0 <= i < t.shape[1],
        0 <= j < t.shape[2],
    ensures
        rope::at3(softmax::softmaxed(t, 2), h, i, j) == softmax::soft_lane(head_row(t, h, i))[j],
{
    let n = t.shape[2];
    let p = (h * t.shape[1] + i) * n + j;
    lemma_cube_volume(t.shape);
    lemma_cube_cell(h, i, j, t.shape[0] as int, t.shape[1] as int, n as int);
    assert(t.shape.skip(3) =~= Seq::empty());
    assert(volume(Seq::<usize>::empty()) == 1);
    assert(softmax::inner_size(t.shape, 2) == 1);
    let base = (p / n as int) * n;
    assert(base == (h * t.shape[1] + i) * n) by {
        vstd::arithmetic::div_mod::lemma_fundamental_div_mod(p, n as int);
        assert((p / n as int) * n == n * (p / n as int)) by (nonlinear_arith);
    }
    assert(n * 1usize == n);
    assert(j % 1 == 0 && j / 1 == j);
    let row = softmax::lane(t.data, base + j % 1usize as int, n as nat, 1usize as int);
    assert(row =~= head_row(t, h, i));
    assert(softmax::soft_block(t.data, base, n, 1)[j] == softmax::soft_lane(row)[j]);
}

/// A key after the position of a query gets no weight from it, wherever a power of e
/// that is out of reach is zero, and zero stays zero when it is divided by the sum.
pub proof fn out_of_reach_gets_no_weight<T: Scalar>(
    scores: TensorView<T>,
    start_pos: int,
    h: int,
    i: int,
    j: int,
)
    requires
        scores.wf(),
        scores.ndim() == 3,
        0 <= h < scores.shape[0],
        0 <= i < scores.shape[1],
        start_pos + i < j < scores.shape[2],
        0 <= j,
        ({
            let row = head_row(heads::masked(scores, start_pos), h, i);
            let most = softmax::lane_max(row);
            let sum = softmax::total(softmax::shifted_exps(row, most));
            exp(minus(lowest::<T>(), most)) == zero::<T>() && over(zero::<T>(), sum) == zero::<T>()
        }),
    ensures
        rope::at3(softmax::softmaxed(heads::masked(scores, start_pos), 2), h, i, j) == zero::<T>(),
{
    let t = heads::masked(scores, start_pos);
    lemma_cube_volume(t.shape);
    masking_is_causal(scores, start_pos, h, i, j);
    soft_rows(t, h, i, j);
}

/// The weights that a query gives depend on the scores within its reach alone.
pub proof fn scores_out_of_reach_do_not_matter<T: Scalar>(
    a: TensorView<T>,
    b: TensorView<T>,
    start_pos: int,
    h: int,
    i: int,
    j: int,
)
    requires
        a.wf(),
        b.wf(),
        a.ndim() == 3,
        b.shape == a.shape,
        0 <= h < a.shape[0],
        0 <= i < a.shape[1],
        0 <= j < a.shape[2],
        forall|k: int|
            0 <= k < a.shape[2] && k <= start_pos + i ==> #[trigger] rope::at3(a, h, i, k)
                == rope::at3(b, h, i, k),
    ensures
        rope::at3(softmax::softmaxed(heads::masked(a, start_pos), 2), h, i, j) == rope::at3(
            softmax::softmaxed(heads::masked(b, start_pos), 2),
            h,
            i,
            j,
        ),
{
    let (s, t) = (heads::masked(a, start_pos), heads::masked(b, start_pos));
    lemma_cube_volume(s.shape);
    assert forall|k: int| 0 <= k < a.shape[2] implies #[trigger] rope::at3(s, h, i, k)
        == rope::at3(t, h, i, k) by {
        masking_is_causal(a, start_pos, h, i, k);
        masking_is_causal(b, start_pos, h, i, k);
    }
    assert(head_row(s, h, i) =~= head_row(t, h, i));
    soft_rows(s, h, i, j);
    soft_rows(t, h, i, j);
}

/// Whether `keys` has a row of keys for each of `total` positions.
pub open spec fn holds_keys<T: Scalar>(
    layer: AttentionView<T>,
    keys: TensorView<T>,
    total: int,
) -> bool {
    &&& keys.wf()
    &&& keys.is_matrix(total, layer.kv_dim())
    &&& total * layer.num_heads * layer.head_dim <= usize::MAX
}

/// Query head `h` shares the key of position `r` with its group.
pub(crate) proof fn lemma_shared_key<T: Scalar>(
    layer: AttentionView<T>,
    keys: TensorView<T>,
    total: int,
    r: int,
    h: int,
    d: int,
)
    requires
        layer.wf(),
        holds_keys(layer, keys, total),
        0 <= r < total,
        0 <= h < layer.num_heads,
        0 <= d < layer.head_dim,
    ensures
        heads::swapped(layer.shared(keys)).wf(),
        heads::swapped(layer.shared(keys)).shape == seq![
            layer.num_heads,
            total as usize,
            layer.head_dim,
        ],
        0 <= h / layer.kv_groups() as int * layer.head_dim + d < layer.kv_dim(),
        rope::at3(heads::swapped(layer.shared(keys)), h, r, d) == keys.at(
            r,
            h / layer.kv_groups() as int * layer.head_dim + d,
        ),
{
    let (n, kv, dim) = (layer.num_heads as int, layer.num_kv_heads as int, layer.head_dim as int);
    let g = layer.kv_groups();
    crate::attention::lemma_groups(n, kv);
    assert(g as int == n / kv);
    assert(g > 0) by (nonlinear_arith)
        requires
            kv * (n / kv) == n,
            g == n / kv,
            n > 0,
            kv > 0,
            g >= 0,
    ;
    let split = heads::reshaped(keys, seq![keys.shape[0], layer.num_kv_heads, layer.head_dim]);
    let shared = layer.shared(keys);
    assert(shared.shape =~= seq![keys.shape[0], layer.num_heads, layer.head_dim]);
    lemma_cube_at(
        keys.shape[0],
        (split.shape[1] * g) as usize,
        layer.head_dim,
        |s: int, h: int, d: int| rope::at3(split, s, h / g as int, d),
    );
    lemma_cube_at(
        shared.shape[1],
        shared.shape[0],
        shared.shape[2],
        |i: int, j: int, d: int| rope::at3(shared, j, i, d),
    );
    assert(h / g as int >= 0 && h / g as int <= kv - 1) by (nonlinear_arith)
        requires
            0 <= h < n,
            kv * (g as int) == n,
            g > 0,
            kv > 0,
    ;
    let c = h / g as int;
    lemma_cell(c, d, kv, dim);
    assert((r * kv + c) * dim + d == r * (kv * dim) + (c * dim + d)) by (nonlinear_arith);
}

proof fn lemma_qk_dot_same<T: Scalar>(
    q: TensorView<T>,
    p: TensorView<T>,
    k: TensorView<T>,
    l: TensorView<T>,
    h: int,
    i: int,
    j: int,
    n: int,
)
    requires
        forall|d: int|
            0 <= d < n ==> #[trigger] rope::at3(q, h, i, d) == rope::at3(p, h, i, d),
        forall|d: int|
            0 <= d < n ==> #[trigger] rope::at3(k, h, j, d) == rope::at3(l, h, j, d),
    ensures
        heads::qk_dot(q, k, h, i, j, n) == heads::qk_dot(p, l, h, i, j, n),
    decreases n,
{
    if n > 0 {
        lemma_qk_dot_same(q, p, k, l, h, i, j, n - 1);
        assert(rope::at3(q, h, i, n - 1) == rope::at3(p, h, i, n - 1));
        assert(rope::at3(k, h, j, n - 1) == rope::at3(l, h, j, n - 1));
    }
}

/// Attention looks back only: the weights that the query at place `i` gives are a
/// matter of this query and of the keys up to its position. Other queries and later
/// keys change nothing.
pub proof fn weights_look_back_only<T: Scalar>(
    layer: AttentionView<T>,
    q: TensorView<T>,
    p: TensorView<T>,
    keys: TensorView<T>,
    others: TensorView<T>,
    total: int,
    start_pos: int,
    h: int,
    i: int,
    j: int,
)
    requires
        layer.wf(),
        q.wf(),
        p.wf(),
        q.shape == seq![q.shape[0], layer.num_heads, layer.head_dim],
        p.shape == q.shape,
        holds_keys(layer, keys, total),
        holds_keys(layer, others, total),
        0 <= h < layer.num_heads,
        0 <= i < q.shape[0],
        0 <= j < total,
        forall|d: int|
            0 <= d < layer.head_dim ==> #[trigger] rope::at3(q, i, h, d) == rope::at3(p, i, h, d),
        forall|r: int, c: int|
            0 <= r < total && r <= start_pos + i && 0 <= c < layer.kv_dim() ==> #[trigger] keys.at(
                r,
                c,
            ) == others.at(r, c),
    ensures
        rope::at3(layer.attention_weights(q, keys, start_pos), h, i, j) == rope::at3(
            layer.attention_weights(p, others, start_pos),
            h,
            i,
            j,
        ),
{
    let (n, s, dim) = (layer.num_heads, q.shape[0], layer.head_dim);
    let (qs, ps) = (heads::swapped(q), heads::swapped(p));
    let (ks, ls) = (heads::swapped(layer.shared(keys)), heads::swapped(layer.shared(others)));
    let (a, b) = (heads::fits(qs, ks), heads::fits(ps, ls));
    let (x, y) = (
        pointwise::scaled(a, layer.scale()),
        pointwise::scaled(b, layer.scale()),
    );
    lemma_cube_at(n, s, dim, |i: int, j: int, d: int| rope::at3(q, j, i, d));
    lemma_cube_at(n, s, dim, |i: int, j: int, d: int| rope::at3(p, j, i, d));
    assert(ks.shape == seq![n, total as usize, dim] && ls.shape == ks.shape) by {
        lemma_shared_shape(layer, keys, total);
        lemma_shared_shape(layer, others, total);
    }
    lemma_cube_at(
        n,
        s,
        total as usize,
        |h: int, i: int, j: int| heads::qk_dot(qs, ks, h, i, j, dim as int),
    );
    lemma_cube_at(
        n,
        s,
        total as usize,
        |h: int, i: int, j: int| heads::qk_dot(ps, ls, h, i, j, dim as int),
    );
    assert(a =~= rope::cube(
        n,
        s,
        total as usize,
        |h: int, i: int, j: int| heads::qk_dot(qs, ks, h, i, j, dim as int),
    ));
    assert(b =~= rope::cube(
        n,
        s,
        total as usize,
        |h: int, i: int, j: int| heads::qk_dot(ps, ls, h, i, j, dim as int),
    ));
    assert forall|k: int| 0 <= k < total && k <= start_pos + i implies #[trigger] rope::at3(
        x,
        h,
        i,
        k,
    ) == rope::at3(y, h, i, k) by {
        assert forall|d: int| 0 <= d < dim implies #[trigger] rope::at3(qs, h, i, d) == rope::at3(
            ps,
            h,
            i,
            d,
        ) by {
            assert(rope::at3(q, i, h, d) == rope::at3(p, i, h, d));
        }
        assert forall|d: int| 0 <= d < dim implies #[trigger] rope::at3(ks, h, k, d) == rope::at3(
            ls,
            h,
            k,
            d,
        ) by {
            lemma_shared_key(layer, keys, total, k, h, d);
            lemma_shared_key(layer, others, total, k, h, d);
        }
        lemma_qk_dot_same(qs, ps, ks, ls, h, i, k, dim as int);
        lemma_cube_cell(h, i, k, n as int, s as int, total);
        assert(rope::at3(a, h, i, k) == rope::at3(b, h, i, k));
    }
    scores_out_of_reach_do_not_matter(x, y, start_pos, h, i, j);
}

pub(crate) proof fn lemma_shared_shape<T: Scalar>(
    layer: AttentionView<T>,
    keys: TensorView<T>,
    total: int,
)
    requires
        layer.wf(),
        holds_keys(layer, keys, total),
    ensures
        heads::swapped(layer.shared(keys)).shape == seq![
            layer.num_heads,
            total as usize,
            layer.head_dim,
        ],
{
    crate::attention::lemma_groups(layer.num_heads as int, layer.num_kv_heads as int);
    assert(heads::swapped(layer.shared(keys)).shape =~= seq![
        layer.num_heads,
        total as usize,
        layer.head_dim,
    ]);
}

} // verus!
