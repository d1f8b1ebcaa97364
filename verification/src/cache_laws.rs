//! What holds of the cache of keys and values across calls.
use crate::attention;
use crate::attention::{AttentionView, KVCacheView};
use crate::ffn;
use crate::heads;
use crate::index::{lemma_cell, lemma_place};
use crate::matrix;
use crate::rmsnorm;
use crate::rope;
use crate::scalar::{minus, one, over, plus, times, Scalar};
use crate::tensor::{lemma_matrix_ext, lemma_matrix_wf, TensorView};
use vstd::prelude::*;

verus! {

/// Whether row `i` of `x` is row `l` of `y`.
pub open spec fn same_row<T>(x: TensorView<T>, i: int, y: TensorView<T>, l: int) -> bool {
    &&& x.shape[1] == y.shape[1]
    &&& forall|c: int| 0 <= c < x.shape[1] ==> #[trigger] x.at(i, c) == y.at(l, c)
}

/// Whether the heads at position `i` of `x` are those at position `l` of `y`.
spec fn same_heads<T>(x: TensorView<T>, i: int, y: TensorView<T>, l: int, n: int, d: int) -> bool {
    forall|h: int, k: int|
        0 <= h < n && 0 <= k < d ==> #[trigger] rope::at3(x, i, h, k) == rope::at3(y, l, h, k)
}

/// `x` times a weight, by position and head.
spec fn split<T: Scalar>(x: TensorView<T>, w: TensorView<T>, n: usize, d: usize) -> TensorView<T> {
    heads::reshaped(ffn::linear(x, w), seq![x.shape[0], n, d])
}

proof fn lemma_flat_column(i: int, h: int, k: int, n: int, d: int)
    requires
        0 <= h < n,
        0 <= k < d,
    ensures
        (i * n + h) * d + k == i * (n * d) + (h * d + k),
        0 <= h * d + k < n * d,
{
    assert((i * n + h) * d + k == i * (n * d) + (h * d + k)) by (nonlinear_arith);
    lemma_cell(h, k, n, d);
}

proof fn lemma_split_rows<T: Scalar>(
    x: TensorView<T>,
    i: int,
    y: TensorView<T>,
    l: int,
    w: TensorView<T>,
    n: usize,
    d: usize,
)
    requires
        x.ndim() == 2,
        y.ndim() == 2,
        0 <= i < x.shape[0],
        0 <= l < y.shape[0],
        same_row(x, i, y, l),
        w.ndim() == 2,
        w.shape[0] == n * d,
    ensures
        same_heads(split(x, w, n, d), i, split(y, w, n, d), l, n as int, d as int),
{
    let (a, b) = (split(x, w, n, d), split(y, w, n, d));
    assert forall|h: int, k: int| 0 <= h < n && 0 <= k < d implies #[trigger] rope::at3(a, i, h, k)
        == rope::at3(b, l, h, k) by {
        lemma_flat_column(i, h, k, n as int, d as int);
        lemma_flat_column(l, h, k, n as int, d as int);
        matrix::product_goes_row_by_row(x, i, y, l, matrix::transposed(w), h * d + k);
    }
}

/// Each head of each position is normalized on its own.
pub proof fn lemma_norm_element<T: Scalar>(
    x: TensorView<T>,
    norm: rmsnorm::RMSNormView<T>,
    i: int,
    h: int,
    k: int,
)
    requires
        x.wf(),
        x.ndim() == 3,
        0 <= i < x.shape[0],
        0 <= h < x.shape[1],
        0 <= k < x.shape[2],
    ensures
        rope::at3(heads::heads_normalized(x, norm), i, h, k) == rmsnorm::normalized_row(
            Seq::new(x.shape[2] as nat, |e: int| rope::at3(x, i, h, e)),
            norm.weight.data,
            norm.eps,
        )[k],
{
    let (a, b, c) = (x.shape[0] as int, x.shape[1] as int, x.shape[2] as int);
    rope::lemma_cube_volume(x.shape);
    rope::lemma_cube_cell(i, h, k, a, b, c);
    let r = i * b + h;
    lemma_cell(r, k, a * b, c);
    let row = Seq::new(x.shape[2] as nat, |e: int| rope::at3(x, i, h, e));
    assert(x.data.subrange(r * c, r * c + c) =~= row);
}

proof fn lemma_norm_rows<T: Scalar>(
    x: TensorView<T>,
    i: int,
    y: TensorView<T>,
    l: int,
    norm: Option<rmsnorm::RMSNormView<T>>,
)
    requires
        x.wf(),
        y.wf(),
        x.ndim() == 3,
        y.ndim() == 3,
        x.shape[1] == y.shape[1],
        x.shape[2] == y.shape[2],
        0 <= i < x.shape[0],
        0 <= l < y.shape[0],
        same_heads(x, i, y, l, x.shape[1] as int, x.shape[2] as int),
    ensures
        same_heads(
            attention::maybe_normalized(x, norm),
            i,
            attention::maybe_normalized(y, norm),
            l,
            x.shape[1] as int,
            x.shape[2] as int,
        ),
{
    if let Some(m) = norm {
        let (a, b) = (heads::heads_normalized(x, m), heads::heads_normalized(y, m));
        let (n, d) = (x.shape[1] as int, x.shape[2] as int);
        assert forall|h: int, k: int| 0 <= h < n && 0 <= k < d implies #[trigger] rope::at3(
            a,
            i,
            h,
            k,
        ) == rope::at3(b, l, h, k) by {
            lemma_norm_element(x, m, i, h, k);
            lemma_norm_element(y, m, l, h, k);
            let p = Seq::new(x.shape[2] as nat, |e: int| rope::at3(x, i, h, e));
            let q = Seq::new(y.shape[2] as nat, |e: int| rope::at3(y, l, h, e));
            assert(p =~= q) by {
                assert forall|e: int| 0 <= e < d implies p[e] == q[e] by {
                    assert(rope::at3(x, i, h, e) == rope::at3(y, l, h, e));
                }
            }
        }
    }
}

proof fn lemma_rotated_rows<T: Scalar>(
    t: AttentionView<T>,
    x: TensorView<T>,
    i: int,
    start: int,
    y: TensorView<T>,
    l: int,
    start2: int,
)
    requires
        t.wf(),
        x.ndim() == 3,
        y.ndim() == 3,
        x.shape[1] == y.shape[1],
        x.shape[2] == t.head_dim,
        y.shape[2] == t.head_dim,
        0 <= start,
        0 <= start2,
        0 <= i < x.shape[0],
        0 <= l < y.shape[0],
        start + x.shape[0] <= t.max_positions(),
        start2 + y.shape[0] <= t.max_positions(),
        start + i == start2 + l,
        same_heads(x, i, y, l, x.shape[1] as int, x.shape[2] as int),
    ensures
        same_heads(
            rope::rotated(
                x,
                t.cos_rows(start, x.shape[0] as int),
                t.sin_rows(start, x.shape[0] as int),
            ),
            i,
            rope::rotated(
                y,
                t.cos_rows(start2, y.shape[0] as int),
                t.sin_rows(start2, y.shape[0] as int),
            ),
            l,
            x.shape[1] as int,
            x.shape[2] as int,
        ),
{
    let (c1, s1) = (t.cos_rows(start, x.shape[0] as int), t.sin_rows(start, x.shape[0] as int));
    let (c2, s2) = (t.cos_rows(start2, y.shape[0] as int), t.sin_rows(start2, y.shape[0] as int));
    let (a, b) = (rope::rotated(x, c1, s1), rope::rotated(y, c2, s2));
    let (n, d) = (x.shape[1] as int, x.shape[2] as int);
    let half = d / 2;
    matrix::lemma_rows_at(t.cos_table, start, start + x.shape[0]);
    matrix::lemma_rows_at(t.sin_table, start, start + x.shape[0]);
    matrix::lemma_rows_at(t.cos_table, start2, start2 + y.shape[0]);
    matrix::lemma_rows_at(t.sin_table, start2, start2 + y.shape[0]);
    heads::lemma_cube_at(
        x.shape[0],
        x.shape[1],
        x.shape[2],
        |p: int, h: int, k: int| rope::turned(x, c1, s1, p, h, k),
    );
    heads::lemma_cube_at(
        y.shape[0],
        y.shape[1],
        y.shape[2],
        |p: int, h: int, k: int| rope::turned(y, c2, s2, p, h, k),
    );
    assert forall|h: int, k: int| 0 <= h < n && 0 <= k < d implies #[trigger] rope::at3(a, i, h, k)
        == rope::at3(b, l, h, k) by {
        assert(rope::at3(a, i, h, k) == rope::turned(x, c1, s1, i, h, k));
        assert(rope::at3(b, l, h, k) == rope::turned(y, c2, s2, l, h, k));
        let e = if k < half {
            k
        } else {
            k - half
        };
        assert(0 <= e < half);
        assert(c1.at(i, e) == t.cos_table.at(start + i, e));
        assert(s1.at(i, e) == t.sin_table.at(start + i, e));
        assert(c2.at(l, e) == t.cos_table.at(start2 + l, e));
        assert(s2.at(l, e) == t.sin_table.at(start2 + l, e));
        assert(rope::at3(x, i, h, e) == rope::at3(y, l, h, e));
        assert(rope::at3(x, i, h, e + half) == rope::at3(y, l, h, e + half));
    }
}

/// The key of a position depends on its row and its place in the sequence alone.
pub proof fn keys_go_row_by_row<T: Scalar>(
    t: AttentionView<T>,
    x: TensorView<T>,
    i: int,
    start: int,
    y: TensorView<T>,
    l: int,
    start2: int,
    c: int,
)
    requires
        t.wf(),
        x.wf(),
        y.wf(),
        x.ndim() == 2,
        y.ndim() == 2,
        t.weights_fit(x.shape[1] as int),
        0 <= start,
        0 <= start2,
        0 <= i < x.shape[0],
        0 <= l < y.shape[0],
        start + x.shape[0] <= t.max_positions(),
        start2 + y.shape[0] <= t.max_positions(),
        start + i == start2 + l,
        same_row(x, i, y, l),
        0 <= c < t.kv_dim(),
    ensures
        t.keys(x, start).at(i, c) == t.keys(y, start2).at(l, c),
{
    let (n, d) = (t.num_kv_heads, t.head_dim);
    let (p, q) = (split(x, t.k_proj, n, d), split(y, t.k_proj, n, d));
    lemma_split_wf(x, t.k_proj, n, d);
    lemma_split_wf(y, t.k_proj, n, d);
    lemma_split_rows(x, i, y, l, t.k_proj, n, d);
    lemma_norm_rows(p, i, q, l, t.k_norm);
    let (pn, qn) = (
        attention::maybe_normalized(p, t.k_norm),
        attention::maybe_normalized(q, t.k_norm),
    );
    assert(pn.shape == p.shape && qn.shape == q.shape);
    lemma_rotated_rows(t, pn, i, start, qn, l, start2);
    lemma_place(c, n as int, d as int);
    let (h, k) = (c / d as int, c % d as int);
    lemma_flat_column(i, h, k, n as int, d as int);
    lemma_flat_column(l, h, k, n as int, d as int);
    let (a, b) = (
        rope::rotated(
            pn,
            t.cos_rows(start, x.shape[0] as int),
            t.sin_rows(start, x.shape[0] as int),
        ),
        rope::rotated(
            qn,
            t.cos_rows(start2, y.shape[0] as int),
            t.sin_rows(start2, y.shape[0] as int),
        ),
    );
    assert(rope::at3(a, i, h, k) == rope::at3(b, l, h, k));
    assert(t.keys(x, start).at(i, c) == rope::at3(a, i, h, k));
    assert(t.keys(y, start2).at(l, c) == rope::at3(b, l, h, k));
}

/// The query of a position depends on its row and its place in the sequence alone.
pub proof fn queries_go_row_by_row<T: Scalar>(
    t: AttentionView<T>,
    x: TensorView<T>,
    i: int,
    start: int,
    y: TensorView<T>,
    l: int,
    start2: int,
    h: int,
    k: int,
)
    requires
        t.wf(),
        x.wf(),
        y.wf(),
        x.ndim() == 2,
        y.ndim() == 2,
        t.weights_fit(x.shape[1] as int),
        0 <= start,
        0 <= start2,
        0 <= i < x.shape[0],
        0 <= l < y.shape[0],
        start + x.shape[0] <= t.max_positions(),
        start2 + y.shape[0] <= t.max_positions(),
        start + i == start2 + l,
        same_row(x, i, y, l),
        0 <= h < t.num_heads,
        0 <= k < t.head_dim,
    ensures
        rope::at3(t.queries(x, start), i, h, k) == rope::at3(t.queries(y, start2), l, h, k),
{
    let (n, d) = (t.num_heads, t.head_dim);
    let (p, q) = (split(x, t.q_proj, n, d), split(y, t.q_proj, n, d));
    lemma_split_wf(x, t.q_proj, n, d);
    lemma_split_wf(y, t.q_proj, n, d);
    lemma_split_rows(x, i, y, l, t.q_proj, n, d);
    lemma_norm_rows(p, i, q, l, t.q_norm);
    let (pn, qn) = (
        attention::maybe_normalized(p, t.q_norm),
        attention::maybe_normalized(q, t.q_norm),
    );
    assert(pn.shape == p.shape && qn.shape == q.shape);
    lemma_rotated_rows(t, pn, i, start, qn, l, start2);
}

/// Queries come by position and head.
pub(crate) proof fn lemma_queries_shape<T: Scalar>(
    t: AttentionView<T>,
    x: TensorView<T>,
    start: int,
)
    ensures
        t.queries(x, start).wf(),
        t.queries(x, start).shape == seq![x.shape[0], t.num_heads, t.head_dim],
{
    let (s, n, d) = (x.shape[0], t.num_heads, t.head_dim);
    let sn = attention::maybe_normalized(split(x, t.q_proj, n, d), t.q_norm);
    let (c, e) = (t.cos_rows(start, s as int), t.sin_rows(start, s as int));
    heads::lemma_cube_at(s, n, d, |p: int, h: int, k: int| rope::turned(sn, c, e, p, h, k));
    assert(t.queries(x, start).shape =~= seq![s, n, d]);
}

proof fn lemma_split_wf<T: Scalar>(x: TensorView<T>, w: TensorView<T>, n: usize, d: usize)
    requires
        w.ndim() == 2,
        w.shape[0] == n * d,
    ensures
        split(x, w, n, d).wf(),
        ffn::linear(x, w).is_matrix(x.shape[0] as int, n * d),
        ffn::linear(x, w).wf(),
{
    let s = x.shape[0] as int;
    let flat = ffn::linear(x, w);
    rope::lemma_cube_volume(split(x, w, n, d).shape);
    assert(s * n * d == s * (n * d)) by (nonlinear_arith);
    assert(0 <= s * (n * d)) by (nonlinear_arith)
        requires
            0 <= s,
            0 <= n,
            0 <= d,
    ;
    lemma_matrix_wf(flat);
}

pub(crate) proof fn lemma_keys_shape<T: Scalar>(t: AttentionView<T>, x: TensorView<T>, start: int)
    requires
        t.wf(),
        x.wf(),
        x.ndim() == 2,
        t.weights_fit(x.shape[1] as int),
    ensures
        t.keys(x, start).is_matrix(x.shape[0] as int, t.kv_dim()),
        t.keys(x, start).wf(),
        t.values(x).is_matrix(x.shape[0] as int, t.kv_dim()),
        t.values(x).wf(),
{
    let (s, n, d) = (x.shape[0], t.num_kv_heads, t.head_dim);
    lemma_split_wf(x, t.k_proj, n, d);
    lemma_split_wf(x, t.v_proj, n, d);
    let sn = attention::maybe_normalized(split(x, t.k_proj, n, d), t.k_norm);
    let (c, e) = (t.cos_rows(start, s as int), t.sin_rows(start, s as int));
    heads::lemma_cube_at(s, n, d, |p: int, h: int, k: int| rope::turned(sn, c, e, p, h, k));
    let a = rope::rotated(sn, c, e);
    rope::lemma_cube_volume(a.shape);
    assert(s * n * d == s * (n * d)) by (nonlinear_arith);
    lemma_matrix_wf(t.keys(x, start));
}

/// Rows stacked in two parts: the cell of a stacked matrix is a cell of the part
/// that the row belongs to.
pub(crate) proof fn lemma_stacked_at<T>(a: TensorView<T>, b: TensorView<T>)
    requires
        a.wf(),
        b.wf(),
        a.ndim() == 2,
        b.ndim() == 2,
        a.shape[1] == b.shape[1],
        a.shape[0] + b.shape[0] <= usize::MAX,
    ensures
        matrix::stacked(a, b).is_matrix(a.shape[0] + b.shape[0], a.shape[1] as int),
        matrix::stacked(a, b).wf(),
        forall|i: int, j: int|
            0 <= i < a.shape[0] && 0 <= j < a.shape[1] ==> #[trigger] matrix::stacked(a, b).at(
                i,
                j,
            ) == a.at(i, j),
        forall|i: int, j: int|
            a.shape[0] <= i < a.shape[0] + b.shape[0] && 0 <= j < a.shape[1]
                ==> #[trigger] matrix::stacked(a, b).at(i, j) == b.at(i - a.shape[0], j),
{
    matrix::stacking_keeps_rows(a, b);
    lemma_matrix_wf(a);
    lemma_matrix_wf(b);
    lemma_matrix_wf(matrix::stacked(a, b));
    let s = matrix::stacked(a, b);
    let (h, k, n) = (a.shape[0] as int, b.shape[0] as int, a.shape[1] as int);
    assert forall|i: int, j: int| 0 <= i < h && 0 <= j < n implies #[trigger] s.at(i, j) == a.at(
        i,
        j,
    ) by {
        lemma_cell(i, j, h, n);
    }
    assert forall|i: int, j: int| h <= i < h + k && 0 <= j < n implies #[trigger] s.at(i, j)
        == b.at(i - h, j) by {
        lemma_cell(i - h, j, k, n);
        assert(i * n + j == h * n + ((i - h) * n + j)) by (nonlinear_arith);
    }
}

/// Keys and values of positions that are given in two parts are those of all the
/// positions together.
proof fn lemma_rows_by_parts<T: Scalar>(
    t: AttentionView<T>,
    a: TensorView<T>,
    b: TensorView<T>,
    start: int,
)
    requires
        t.wf(),
        a.wf(),
        b.wf(),
        a.ndim() == 2,
        b.ndim() == 2,
        a.shape[1] == b.shape[1],
        t.weights_fit(a.shape[1] as int),
        0 <= start,
        start + a.shape[0] + b.shape[0] <= t.max_positions(),
    ensures
        t.keys(matrix::stacked(a, b), start) == matrix::stacked(
            t.keys(a, start),
            t.keys(b, start + a.shape[0]),
        ),
        t.values(matrix::stacked(a, b)) == matrix::stacked(t.values(a), t.values(b)),
{
    let x = matrix::stacked(a, b);
    let (h, k) = (a.shape[0] as int, b.shape[0] as int);
    let dim = t.kv_dim();
    lemma_stacked_at(a, b);
    lemma_keys_shape(t, x, start);
    lemma_keys_shape(t, a, start);
    lemma_keys_shape(t, b, start + h);
    let (ka, kb) = (t.keys(a, start), t.keys(b, start + h));
    let (va, vb) = (t.values(a), t.values(b));
    lemma_stacked_at(ka, kb);
    lemma_stacked_at(va, vb);
    let (ks, vs) = (matrix::stacked(ka, kb), matrix::stacked(va, vb));
    assert forall|i: int, c: int| 0 <= i < h + k && 0 <= c < dim implies #[trigger] t.keys(
        x,
        start,
    ).at(i, c) == ks.at(i, c) by {
        if i < h {
            assert(same_row(x, i, a, i));
            keys_go_row_by_row(t, x, i, start, a, i, start, c);
        } else {
            assert(same_row(x, i, b, i - h)) by {
                assert forall|e: int| 0 <= e < x.shape[1] implies #[trigger] x.at(i, e) == b.at(
                    i - h,
                    e,
                ) by {}
            }
            keys_go_row_by_row(t, x, i, start, b, i - h, start + h, c);
        }
    }
    lemma_matrix_ext(t.keys(x, start), ks, h + k, dim);
    assert forall|i: int, c: int| 0 <= i < h + k && 0 <= c < dim implies #[trigger] t.values(x).at(
        i,
        c,
    ) == vs.at(i, c) by {
        if i < h {
            matrix::product_goes_row_by_row(x, i, a, i, matrix::transposed(t.v_proj), c);
        } else {
            assert forall|e: int| 0 <= e < x.shape[1] implies #[trigger] x.at(i, e) == b.at(
                i - h,
                e,
            ) by {}
            matrix::product_goes_row_by_row(x, i, b, i - h, matrix::transposed(t.v_proj), c);
        }
    }
    lemma_matrix_ext(t.values(x), vs, h + k, dim);
}

proof fn lemma_appending_twice<T>(
    cached: Option<TensorView<T>>,
    a: TensorView<T>,
    b: TensorView<T>,
)
    requires
        a.ndim() == 2,
        b.ndim() == 2,
        cached matches Some(c) ==> c.shape[1] == a.shape[1] && c.shape[0] + a.shape[0] + b.shape[0]
            <= usize::MAX,
        a.shape[0] + b.shape[0] <= usize::MAX,
    ensures
        attention::appended(Some(attention::appended(cached, a)), b) == attention::appended(
            cached,
            matrix::stacked(a, b),
        ),
{
    if let Some(c) = cached {
        let left = matrix::stacked(matrix::stacked(c, a), b);
        let right = matrix::stacked(c, matrix::stacked(a, b));
        assert(left.shape =~= right.shape);
        assert(left.data =~= right.data);
    }
}

/// The cache does not depend on how the positions are cut up: seeing them in two
/// parts, one after the other, leaves the same keys and values as seeing them
/// together.
pub proof fn caching_in_parts<T: Scalar>(
    t: AttentionView<T>,
    a: TensorView<T>,
    b: TensorView<T>,
    start: int,
    cache: KVCacheView<T>,
)
    requires
        t.wf(),
        a.wf(),
        b.wf(),
        a.ndim() == 2,
        b.ndim() == 2,
        a.shape[1] == b.shape[1],
        t.weights_fit(a.shape[1] as int),
        0 <= start,
        start + a.shape[0] + b.shape[0] <= t.max_positions(),
        cache.wf(t.kv_dim()),
        cache.rows() + a.shape[0] + b.shape[0] <= usize::MAX,
    ensures
        t.next_cache(b, start + a.shape[0], t.next_cache(a, start, cache)) == t.next_cache(
            matrix::stacked(a, b),
            start,
            cache,
        ),
{
    lemma_rows_by_parts(t, a, b, start);
    lemma_keys_shape(t, a, start);
    lemma_keys_shape(t, b, start + a.shape[0]);
    lemma_appending_twice(cache.key_cache, t.keys(a, start), t.keys(b, start + a.shape[0]));
    lemma_appending_twice(cache.value_cache, t.values(a), t.values(b));
}

/// The cache only grows: what it held stays in front, and the new positions add one
/// row each.
pub proof fn caching_keeps_what_was_there<T: Scalar>(
    t: AttentionView<T>,
    x: TensorView<T>,
    start: int,
    cache: KVCacheView<T>,
)
    requires
        t.wf(),
        t.accepts(x, start, cache),
    ensures
        ({
            let next = t.next_cache(x, start, cache);
            let n = cache.rows();
            &&& next.wf(t.kv_dim())
            &&& next.rows() == n + x.shape[0]
            &&& cache.key_cache matches Some(k) ==> matrix::rows_of(next.key_cache->0, 0, n) == k
            &&& cache.value_cache matches Some(v) ==> matrix::rows_of(next.value_cache->0, 0, n)
                == v
        }),
{
    lemma_keys_shape(t, x, start);
    if let Some(k) = cache.key_cache {
        matrix::stacking_keeps_rows(k, t.keys(x, start));
        matrix::stacking_keeps_rows(cache.value_cache->0, t.values(x));
    }
}

/// What a projection makes of row `i` for head `h`.
pub open spec fn projected_head<T: Scalar>(
    x: TensorView<T>,
    w: TensorView<T>,
    i: int,
    h: int,
    head_dim: usize,
) -> Seq<T> {
    Seq::new(head_dim as nat, |e: int| ffn::linear(x, w).at(i, h * head_dim + e))
}

/// Whether two layers cut up and turn their heads in the same way.
pub open spec fn same_turns<T: Scalar>(t: AttentionView<T>, u: AttentionView<T>) -> bool {
    &&& t.head_dim == u.head_dim
    &&& t.cos_table == u.cos_table
    &&& t.sin_table == u.sin_table
}

/// The queries are a matter of the query projection and the query norm: layers that
/// agree in these, whatever their keys, values and last projections are, give the same
/// queries.
pub proof fn queries_depend_on_the_query_side<T: Scalar>(
    t: AttentionView<T>,
    u: AttentionView<T>,
    x: TensorView<T>,
    start: int,
)
    requires
        same_turns(t, u),
        t.num_heads == u.num_heads,
        t.q_proj == u.q_proj,
        t.q_norm == u.q_norm,
    ensures
        t.queries(x, start) == u.queries(x, start),
{
}

/// What is cached is a matter of the key projection, the key norm and the value
/// projection: layers that agree in these, whatever their queries and last projections
/// are, leave the same cache.
pub proof fn caching_depends_on_the_key_side<T: Scalar>(
    t: AttentionView<T>,
    u: AttentionView<T>,
    x: TensorView<T>,
    start: int,
    cache: KVCacheView<T>,
)
    requires
        same_turns(t, u),
        t.num_kv_heads == u.num_kv_heads,
        t.k_proj == u.k_proj,
        t.v_proj == u.v_proj,
        t.k_norm == u.k_norm,
    ensures
        t.keys(x, start) == u.keys(x, start),
        t.values(x) == u.values(x),
        t.next_cache(x, start, cache) == u.next_cache(x, start, cache),
{
}

/// Keys depend on no value projection, and values on no key projection or norm.
pub proof fn keys_and_values_are_apart<T: Scalar>(
    t: AttentionView<T>,
    u: AttentionView<T>,
    x: TensorView<T>,
    start: int,
)
    requires
        same_turns(t, u),
        t.num_kv_heads == u.num_kv_heads,
    ensures
        t.k_proj == u.k_proj && t.k_norm == u.k_norm ==> t.keys(x, start) == u.keys(x, start),
        t.v_proj == u.v_proj ==> t.values(x) == u.values(x),
{
}

/// A head before the turn is what the projection gives, normalized with the norm where
/// there is one.
pub open spec fn head_before_the_turn<T: Scalar>(
    head: Seq<T>,
    norm: Option<rmsnorm::RMSNormView<T>>,
) -> Seq<T> {
    match norm {
        Some(n) => rmsnorm::normalized_row(head, n.weight.data, n.eps),
        None => head,
    }
}

proof fn lemma_head_before<T: Scalar>(
    x: TensorView<T>,
    w: TensorView<T>,
    norm: Option<rmsnorm::RMSNormView<T>>,
    n: usize,
    d: usize,
    i: int,
    h: int,
    k: int,
)
    requires
        x.ndim() == 2,
        w.ndim() == 2,
        w.shape[0] == n * d,
        0 <= i < x.shape[0],
        0 <= h < n,
        0 <= k < d,
    ensures
        attention::maybe_normalized(split(x, w, n, d), norm).shape == seq![x.shape[0], n, d],
        rope::at3(attention::maybe_normalized(split(x, w, n, d), norm), i, h, k)
            == head_before_the_turn(projected_head(x, w, i, h, d), norm)[k],
{
    let p = split(x, w, n, d);
    lemma_split_wf(x, w, n, d);
    let head = projected_head(x, w, i, h, d);
    assert forall|e: int| 0 <= e < d implies #[trigger] rope::at3(p, i, h, e) == head[e] by {
        lemma_flat_column(i, h, e, n as int, d as int);
    }
    if let Some(m) = norm {
        lemma_norm_element(p, m, i, h, k);
        assert(Seq::new(p.shape[2] as nat, |e: int| rope::at3(p, i, h, e)) =~= head);
    } else {
        assert(rope::at3(p, i, h, k) == head[k]);
    }
}

proof fn lemma_turned_heads<T: Scalar>(
    t: AttentionView<T>,
    x: TensorView<T>,
    w: TensorView<T>,
    norm: Option<rmsnorm::RMSNormView<T>>,
    n: usize,
    start: int,
    i: int,
    h: int,
    k: int,
)
    requires
        t.wf(),
        x.wf(),
        x.ndim() == 2,
        w.ndim() == 2,
        w.shape[0] == n * t.head_dim,
        0 <= start,
        start + x.shape[0] <= t.max_positions(),
        0 <= i < x.shape[0],
        0 <= h < n,
        0 <= k < t.head_dim as int / 2,
    ensures
        ({
            let s = x.shape[0] as int;
            let half = t.head_dim as int / 2;
            let p = head_before_the_turn(projected_head(x, w, i, h, t.head_dim), norm);
            let (a, b) = (t.cos_table.at(start + i, k), t.sin_table.at(start + i, k));
            let r = rope::rotated(
                attention::maybe_normalized(split(x, w, n, t.head_dim), norm),
                t.cos_rows(start, s),
                t.sin_rows(start, s),
            );
            &&& rope::at3(r, i, h, k) == minus(times(p[k], a), times(p[k + half], b))
            &&& rope::at3(r, i, h, k + half) == plus(times(p[k], b), times(p[k + half], a))
        }),
{
    let s = x.shape[0] as int;
    let half = t.head_dim as int / 2;
    let y = attention::maybe_normalized(split(x, w, n, t.head_dim), norm);
    lemma_head_before(x, w, norm, n, t.head_dim, i, h, k);
    lemma_head_before(x, w, norm, n, t.head_dim, i, h, k + half);
    matrix::lemma_rows_at(t.cos_table, start, start + s);
    matrix::lemma_rows_at(t.sin_table, start, start + s);
    let (c, e) = (t.cos_rows(start, s), t.sin_rows(start, s));
    rope::lemma_turned_pair(y, c, e, i, h, k);
    assert(c.at(i, k) == t.cos_table.at(start + i, k));
    assert(e.at(i, k) == t.sin_table.at(start + i, k));
}

/// A query head is the head that the query projection gives, normalized with the query
/// norm where there is one, each number of its first half turned together with that of its
/// second half by the angle of its position.
pub proof fn query_heads_are_turned<T: Scalar>(
    t: AttentionView<T>,
    x: TensorView<T>,
    start: int,
    i: int,
    h: int,
    k: int,
)
    requires
        t.wf(),
        x.wf(),
        x.ndim() == 2,
        t.weights_fit(x.shape[1] as int),
        0 <= start,
        start + x.shape[0] <= t.max_positions(),
        0 <= i < x.shape[0],
        0 <= h < t.num_heads,
        0 <= k < t.head_dim as int / 2,
    ensures
        ({
            let half = t.head_dim as int / 2;
            let head = projected_head(x, t.q_proj, i, h, t.head_dim);
            let p = match t.q_norm {
                Some(n) => rmsnorm::normalized_row(head, n.weight.data, n.eps),
                None => head,
            };
            let (a, b) = (t.cos_table.at(start + i, k), t.sin_table.at(start + i, k));
            let q = t.queries(x, start);
            &&& rope::at3(q, i, h, k) == minus(times(p[k], a), times(p[k + half], b))
            &&& rope::at3(q, i, h, k + half) == plus(times(p[k], b), times(p[k + half], a))
        }),
{
    lemma_turned_heads(t, x, t.q_proj, t.q_norm, t.num_heads, start, i, h, k);
}

/// A key head is the head that the key projection gives, normalized with the key norm
/// where there is one, and turned by the angle of its position in the same way.
pub proof fn key_heads_are_turned<T: Scalar>(
    t: AttentionView<T>,
    x: TensorView<T>,
    start: int,
    i: int,
    h: int,
    k: int,
)
    requires
        t.wf(),
        x.wf(),
        x.ndim() == 2,
        t.weights_fit(x.shape[1] as int),
        0 <= start,
        start + x.shape[0] <= t.max_positions(),
        0 <= i < x.shape[0],
        0 <= h < t.num_kv_heads,
        0 <= k < t.head_dim as int / 2,
    ensures
        ({
            let half = t.head_dim as int / 2;
            let head = projected_head(x, t.k_proj, i, h, t.head_dim);
            let p = match t.k_norm {
                Some(n) => rmsnorm::normalized_row(head, n.weight.data, n.eps),
                None => head,
            };
            let (a, b) = (t.cos_table.at(start + i, k), t.sin_table.at(start + i, k));
            let keys = t.keys(x, start);
            let c = h * t.head_dim + k;
            &&& keys.at(i, c) == minus(times(p[k], a), times(p[k + half], b))
            &&& keys.at(i, c + half) == plus(times(p[k], b), times(p[k + half], a))
        }),
{
    let half = t.head_dim as int / 2;
    lemma_turned_heads(t, x, t.k_proj, t.k_norm, t.num_kv_heads, start, i, h, k);
    lemma_keys_shape(t, x, start);
    lemma_flat_column(i, h, k, t.num_kv_heads as int, t.head_dim as int);
    lemma_flat_column(i, h, k + half, t.num_kv_heads as int, t.head_dim as int);
}

/// Where a position is not turned, a query is the projected head normalized with the
/// weight of the query norm: each number times the root of the mean square of the head is
/// the projected number times the weight, wherever multiplying undoes dividing.
pub proof fn query_heads_are_normalized<T: Scalar>(
    t: AttentionView<T>,
    x: TensorView<T>,
    start: int,
    i: int,
    h: int,
    k: int,
)
    requires
        t.wf(),
        x.wf(),
        x.ndim() == 2,
        t.weights_fit(x.shape[1] as int),
        0 <= start,
        start + x.shape[0] <= t.max_positions(),
        0 <= i < x.shape[0],
        0 <= h < t.num_heads,
        0 <= k < t.head_dim as int / 2,
        t.q_norm is Some,
        ({
            let n = t.q_norm->0;
            let p = rmsnorm::normalized_row(
                projected_head(x, t.q_proj, i, h, t.head_dim),
                n.weight.data,
                n.eps,
            );
            minus(
                times(p[k], t.cos_table.at(start + i, k)),
                times(p[k + t.head_dim as int / 2], t.sin_table.at(start + i, k)),
            ) == p[k]
        }),
        ({
            let head = projected_head(x, t.q_proj, i, h, t.head_dim);
            let r = rmsnorm::root_mean_square(head, t.q_norm->0.eps);
            let w = t.q_norm->0.weight.data[k];
            times(times(times(head[k], over(one(), r)), w), r) == times(head[k], w)
        }),
    ensures
        ({
            let head = projected_head(x, t.q_proj, i, h, t.head_dim);
            times(
                rope::at3(t.queries(x, start), i, h, k),
                rmsnorm::root_mean_square(head, t.q_norm->0.eps),
            ) == times(head[k], t.q_norm->0.weight.data[k])
        }),
{
    query_heads_are_turned(t, x, start, i, h, k);
    let head = projected_head(x, t.q_proj, i, h, t.head_dim);
    rmsnorm::lemma_square_sum(head);
}

/// The value of a position is what the value projection gives, neither normalized nor
/// turned: where that projection is the identity, the values are the rows themselves.
pub proof fn values_are_projected<T: Scalar>(t: AttentionView<T>, x: TensorView<T>)
    requires
        x.wf(),
        x.ndim() == 2,
        matrix::is_identity(t.v_proj),
        t.v_proj.shape[0] == x.shape[1],
        matrix::rows_select(x),
    ensures
        t.values(x) == x,
{
    ffn::linear_by_the_identity(x, t.v_proj);
}

/// What is new in the cache comes last: the keys of the rows among the keys, and their
/// values among the values.
pub proof fn caching_appends_keys_and_values<T: Scalar>(
    t: AttentionView<T>,
    x: TensorView<T>,
    start: int,
    cache: KVCacheView<T>,
)
    requires
        t.wf(),
        t.accepts(x, start, cache),
    ensures
        ({
            let next = t.next_cache(x, start, cache);
            let n = cache.rows();
            let s = x.shape[0] as int;
            &&& matrix::rows_of(next.key_cache->0, n, n + s) == t.keys(x, start)
            &&& matrix::rows_of(next.value_cache->0, n, n + s) == t.values(x)
        }),
{
    lemma_keys_shape(t, x, start);
    let s = x.shape[0] as int;
    let (k, v) = (t.keys(x, start), t.values(x));
    lemma_matrix_wf(k);
    lemma_matrix_wf(v);
    if let Some(c) = cache.key_cache {
        let d = cache.value_cache->0;
        matrix::stacking_keeps_rows(c, k);
        matrix::stacking_keeps_rows(d, v);
    } else {
        assert(0 * t.kv_dim() == 0);
        assert(k.data.subrange(0, s * t.kv_dim()) =~= k.data);
        assert(v.data.subrange(0, s * t.kv_dim()) =~= v.data);
        assert(matrix::rows_of(k, 0, s).shape =~= k.shape);
        assert(matrix::rows_of(v, 0, s).shape =~= v.shape);
    }
}

} // verus!
