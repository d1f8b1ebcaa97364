//! Positions that are given in parts, one after the other, give the rows that they
//! give together.
use crate::attention;
use crate::attention::{AttentionView, KVCacheView};
use crate::cache_laws;
use crate::ffn;
use crate::ffn::FeedForwardView;
use crate::gathering;
use crate::index::{lemma_cell, lemma_place};
use crate::matrix;
use crate::passes;
use crate::pointwise;
use crate::rmsnorm::RMSNormView;
use crate::rope;
use crate::scalar::{adds_nothing, plus, zero, Scalar};
use crate::tensor::{lemma_matrix_ext, lemma_matrix_wf, TensorView};
use crate::transformer_block::TransformerBlockView;
use vstd::prelude::*;

verus! {

/// Whether `a` and `b` are matrices of one width whose rows can be stacked.
pub open spec fn stackable<T>(a: TensorView<T>, b: TensorView<T>) -> bool {
    &&& a.wf()
    &&& b.wf()
    &&& a.ndim() == 2
    &&& b.ndim() == 2
    &&& a.shape[1] == b.shape[1]
    &&& a.shape[0] + b.shape[0] <= usize::MAX
}

proof fn lemma_linear_shape<T: Scalar>(x: TensorView<T>, w: TensorView<T>)
    requires
        w.ndim() == 2,
    ensures
        ffn::linear(x, w).is_matrix(x.shape[0] as int, w.shape[0] as int),
        ffn::linear(x, w).wf(),
{
    let (s, n) = (x.shape[0] as int, w.shape[0] as int);
    assert(0 <= s * n) by (nonlinear_arith)
        requires
            0 <= s,
            0 <= n,
    ;
    lemma_matrix_wf(ffn::linear(x, w));
}

/// Rows times a weight: the parts of the rows give the parts of the products.
pub proof fn multiplying_in_parts<T: Scalar>(a: TensorView<T>, b: TensorView<T>, w: TensorView<T>)
    requires
        stackable(a, b),
        w.ndim() == 2,
    ensures
        stackable(ffn::linear(a, w), ffn::linear(b, w)),
        ffn::linear(matrix::stacked(a, b), w) == matrix::stacked(
            ffn::linear(a, w),
            ffn::linear(b, w),
        ),
{
    let x = matrix::stacked(a, b);
    let (h, k, n) = (a.shape[0] as int, b.shape[0] as int, w.shape[0] as int);
    lemma_linear_shape(a, w);
    lemma_linear_shape(b, w);
    lemma_linear_shape(x, w);
    cache_laws::lemma_stacked_at(a, b);
    let (la, lb, lx) = (ffn::linear(a, w), ffn::linear(b, w), ffn::linear(x, w));
    cache_laws::lemma_stacked_at(la, lb);
    let s = matrix::stacked(la, lb);
    assert forall|i: int, c: int| 0 <= i < h + k && 0 <= c < n implies #[trigger] lx.at(i, c)
        == s.at(i, c) by {
        if i < h {
            matrix::product_goes_row_by_row(x, i, a, i, matrix::transposed(w), c);
        } else {
            assert forall|e: int| 0 <= e < x.shape[1] implies #[trigger] x.at(i, e) == b.at(
                i - h,
                e,
            ) by {}
            matrix::product_goes_row_by_row(x, i, b, i - h, matrix::transposed(w), c);
        }
    }
    lemma_matrix_ext(lx, s, h + k, n);
}

/// Whether the rows of `b`, which come later, are nothing to the rows of `a`: what is
/// out of reach gets no weight, and a value without weight adds nothing.
#[verifier::opaque]
pub open spec fn later_rows_are_nothing<T: Scalar>(
    t: AttentionView<T>,
    a: TensorView<T>,
    b: TensorView<T>,
    start: int,
    cache: KVCacheView<T>,
) -> bool {
    let q = t.queries(a, start);
    let next = t.next_cache(a, start, cache);
    let (keys, values) = (next.key_cache->0, next.value_cache->0);
    forall|h: int, i: int, d: int|
        0 <= h < t.num_heads && 0 <= i < a.shape[0] && 0 <= d < t.head_dim
            ==> gathering::out_of_reach_is_nothing(gathering::scores(t, q, keys, start, h, i))
            && gathering::later_values_are_nothing(
            t,
            #[trigger] gathering::gathered_number(t, q, keys, values, start, h, i, d),
            t.values(b),
            h,
            d,
        )
}

/// What the layer gathers for the rows of `x`.
spec fn gathered_rows<T: Scalar>(
    t: AttentionView<T>,
    x: TensorView<T>,
    start: int,
    cache: KVCacheView<T>,
) -> TensorView<T> {
    let next = t.next_cache(x, start, cache);
    t.gathered(t.queries(x, start), next.key_cache->0, next.value_cache->0, start)
}

/// The keys and values after `x` has been seen can be attended to.
proof fn lemma_cached_keys<T: Scalar>(
    t: AttentionView<T>,
    x: TensorView<T>,
    start: int,
    cache: KVCacheView<T>,
)
    requires
        t.wf(),
        t.accepts(x, start, cache),
    ensures
        ({
            let next = t.next_cache(x, start, cache);
            let total = cache.rows() + x.shape[0];
            &&& crate::mask_laws::holds_keys(t, next.key_cache->0, total)
            &&& crate::mask_laws::holds_keys(t, next.value_cache->0, total)
            &&& x.shape[0] > 0 ==> t.q_dim() <= usize::MAX
        }),
{
    let next = t.next_cache(x, start, cache);
    let total = cache.rows() + x.shape[0];
    cache_laws::caching_keeps_what_was_there(t, x, start, cache);
    lemma_matrix_wf(next.key_cache->0);
    lemma_matrix_wf(next.value_cache->0);
    if x.shape[0] > 0 {
        let (n, d) = (t.num_heads as int, t.head_dim as int);
        assert(n * d <= total * n * d) by (nonlinear_arith)
            requires
                total >= 1,
                n >= 0,
                d >= 0,
        ;
    }
}

/// What a layer takes together it takes in parts.
pub proof fn lemma_parts_accepted<T: Scalar>(
    t: AttentionView<T>,
    a: TensorView<T>,
    b: TensorView<T>,
    start: int,
    cache: KVCacheView<T>,
)
    requires
        t.wf(),
        stackable(a, b),
        t.accepts(matrix::stacked(a, b), start, cache),
    ensures
        t.accepts(a, start, cache),
        t.next_cache(a, start, cache).rows() == cache.rows() + a.shape[0],
        t.accepts(b, start + a.shape[0], t.next_cache(a, start, cache)),
        t.next_cache(b, start + a.shape[0], t.next_cache(a, start, cache)).rows()
            == cache.rows() + a.shape[0] + b.shape[0],
{
    let (h, k) = (a.shape[0] as int, b.shape[0] as int);
    let total = cache.rows() + h + k;
    let n = t.num_heads as int;
    assert(cache.rows() >= 0);
    assert(n * h * total <= n * (h + k) * total && n * k * total <= n * (h + k) * total)
        by (nonlinear_arith)
        requires
            n >= 0,
            h >= 0,
            k >= 0,
            total >= 0,
    ;
    attention::lemma_fewer_fit(t, h, cache.rows() + h, total);
    cache_laws::caching_keeps_what_was_there(t, a, start, cache);
    cache_laws::caching_keeps_what_was_there(
        t,
        b,
        start + h,
        t.next_cache(a, start, cache),
    );
}

/// The rows of the first part gather what they gather alone.
proof fn lemma_first_rows<T: Scalar>(
    t: AttentionView<T>,
    a: TensorView<T>,
    b: TensorView<T>,
    start: int,
    cache: KVCacheView<T>,
    i: int,
    c: int,
)
    requires
        t.wf(),
        stackable(a, b),
        t.accepts(matrix::stacked(a, b), start, cache),
        0 <= start <= cache.rows(),
        later_rows_are_nothing(t, a, b, start, cache),
        0 <= i < a.shape[0],
        0 <= c < t.q_dim(),
    ensures
        gathered_rows(t, matrix::stacked(a, b), start, cache).at(i, c) == gathered_rows(
            t,
            a,
            start,
            cache,
        ).at(i, c),
{
    reveal(later_rows_are_nothing);
    let x = matrix::stacked(a, b);
    let (q, p) = (t.queries(x, start), t.queries(a, start));
    let first = t.next_cache(a, start, cache);
    let all = t.next_cache(x, start, cache);
    let (keys, values) = (first.key_cache->0, first.value_cache->0);
    let (ks, vs) = (all.key_cache->0, all.value_cache->0);
    let (n, d) = (t.num_heads as int, t.head_dim as int);
    lemma_parts_accepted(t, a, b, start, cache);
    cache_laws::caching_in_parts(t, a, b, start, cache);
    cache_laws::lemma_queries_shape(t, x, start);
    cache_laws::lemma_queries_shape(t, a, start);
    lemma_cached_keys(t, x, start, cache);
    lemma_cached_keys(t, a, start, cache);
    lemma_place(c, n, d);
    let (h, e) = (c / d, c % d);
    let total = cache.rows() + a.shape[0];
    gathering::lemma_gathered(t, q, ks, vs, total + b.shape[0], start, h, i, e);
    gathering::lemma_gathered(t, p, keys, values, total, start, h, i, e);
    cache_laws::lemma_keys_shape(t, b, start + a.shape[0]);
    let (kb, vb) = (t.keys(b, start + a.shape[0]), t.values(b));
    assert(ks == matrix::stacked(keys, kb) && vs == matrix::stacked(values, vb));
    cache_laws::lemma_stacked_at(keys, kb);
    cache_laws::lemma_stacked_at(values, vb);
    cache_laws::lemma_stacked_at(a, b);
    assert(cache_laws::same_row(x, i, a, i));
    assert forall|k: int| 0 <= k < t.head_dim implies #[trigger] rope::at3(q, i, h, k)
        == rope::at3(p, i, h, k) by {
        cache_laws::queries_go_row_by_row(t, x, i, start, a, i, start, h, k);
    }
    assert forall|k: int| 0 <= k < t.head_dim implies 0 <= #[trigger] gathering::column(t, h, k)
        < t.kv_dim() by {
        crate::mask_laws::lemma_shared_key(t, keys, total, 0, h, k);
    }
    assert(gathering::out_of_reach_is_nothing(gathering::scores(t, p, keys, start, h, i))
        && gathering::later_values_are_nothing(
        t,
        gathering::gathered_number(t, p, keys, values, start, h, i, e),
        vb,
        h,
        e,
    ));
    assert(0 <= gathering::column(t, h, e) < t.kv_dim());
    gathering::later_rows_change_nothing(t, q, p, keys, values, ks, vs, vb, start, h, i, e);
}

/// The rows of the second part gather what they gather when they come later.
proof fn lemma_second_rows<T: Scalar>(
    t: AttentionView<T>,
    a: TensorView<T>,
    b: TensorView<T>,
    start: int,
    cache: KVCacheView<T>,
    l: int,
    c: int,
)
    requires
        t.wf(),
        stackable(a, b),
        t.accepts(matrix::stacked(a, b), start, cache),
        0 <= start,
        0 <= l < b.shape[0],
        0 <= c < t.q_dim(),
    ensures
        gathered_rows(t, matrix::stacked(a, b), start, cache).at(a.shape[0] + l, c)
            == gathered_rows(
            t,
            b,
            start + a.shape[0],
            t.next_cache(a, start, cache),
        ).at(l, c),
{
    let x = matrix::stacked(a, b);
    let i = a.shape[0] + l;
    let later = start + a.shape[0];
    let (q, p) = (t.queries(x, start), t.queries(b, later));
    let first = t.next_cache(a, start, cache);
    let all = t.next_cache(x, start, cache);
    let (ks, vs) = (all.key_cache->0, all.value_cache->0);
    let (n, d) = (t.num_heads as int, t.head_dim as int);
    lemma_parts_accepted(t, a, b, start, cache);
    cache_laws::caching_in_parts(t, a, b, start, cache);
    cache_laws::lemma_queries_shape(t, x, start);
    cache_laws::lemma_queries_shape(t, b, later);
    lemma_cached_keys(t, x, start, cache);
    lemma_place(c, n, d);
    let (h, e) = (c / d, c % d);
    let total = cache.rows() + a.shape[0] + b.shape[0];
    gathering::lemma_gathered(t, q, ks, vs, total, start, h, i, e);
    gathering::lemma_gathered(t, p, ks, vs, total, later, h, l, e);
    cache_laws::lemma_stacked_at(a, b);
    assert(cache_laws::same_row(x, i, b, l)) by {
        assert forall|k: int| 0 <= k < x.shape[1] implies #[trigger] x.at(i, k) == b.at(l, k) by {}
    }
    assert forall|k: int| 0 <= k < t.head_dim implies #[trigger] rope::at3(q, i, h, k)
        == rope::at3(p, l, h, k) by {
        cache_laws::queries_go_row_by_row(t, x, i, start, b, l, later, h, k);
    }
    gathering::gathering_goes_row_by_row(t, q, i, start, p, l, later, ks, vs, h, e);
}

/// Attention to positions in two parts, one after the other, gives what attention to
/// them together gives. The rows of the second part agree as they are; those of the
/// first part do wherever the later rows are nothing to them.
pub proof fn attending_in_parts<T: Scalar>(
    t: AttentionView<T>,
    a: TensorView<T>,
    b: TensorView<T>,
    start: int,
    cache: KVCacheView<T>,
)
    requires
        t.wf(),
        stackable(a, b),
        t.accepts(matrix::stacked(a, b), start, cache),
        0 <= start <= cache.rows(),
        later_rows_are_nothing(t, a, b, start, cache),
    ensures
        ({
            let (first, second) = (
                t.output(a, start, cache),
                t.output(b, start + a.shape[0], t.next_cache(a, start, cache)),
            );
            &&& stackable(first, second)
            &&& t.output(matrix::stacked(a, b), start, cache) == matrix::stacked(first, second)
        }),
{
    let x = matrix::stacked(a, b);
    let (h, k) = (a.shape[0] as int, b.shape[0] as int);
    let next = t.next_cache(a, start, cache);
    let (ga, gb, gx) = (
        gathered_rows(t, a, start, cache),
        gathered_rows(t, b, start + h, next),
        gathered_rows(t, x, start, cache),
    );
    let n = a.shape[1] as int;
    lemma_linear_shape(ga, t.o_proj);
    lemma_linear_shape(gb, t.o_proj);
    lemma_linear_shape(gx, t.o_proj);
    cache_laws::lemma_queries_shape(t, a, start);
    cache_laws::lemma_queries_shape(t, b, start + h);
    cache_laws::lemma_queries_shape(t, x, start);
    let (oa, ob, ox) = (
        ffn::linear(ga, t.o_proj),
        ffn::linear(gb, t.o_proj),
        ffn::linear(gx, t.o_proj),
    );
    cache_laws::lemma_stacked_at(oa, ob);
    let s = matrix::stacked(oa, ob);
    let w = matrix::transposed(t.o_proj);
    assert forall|i: int, c: int| 0 <= i < h + k && 0 <= c < n implies #[trigger] ox.at(i, c)
        == s.at(i, c) by {
        lemma_row_width(t, x, start, cache);
        if i < h {
            assert forall|e: int| 0 <= e < gx.shape[1] implies #[trigger] gx.at(i, e) == ga.at(
                i,
                e,
            ) by {
                lemma_first_rows(t, a, b, start, cache, i, e);
            }
            matrix::product_goes_row_by_row(gx, i, ga, i, w, c);
        } else {
            assert forall|e: int| 0 <= e < gx.shape[1] implies #[trigger] gx.at(i, e) == gb.at(
                i - h,
                e,
            ) by {
                lemma_second_rows(t, a, b, start, cache, i - h, e);
            }
            matrix::product_goes_row_by_row(gx, i, gb, i - h, w, c);
        }
    }
    lemma_matrix_ext(ox, s, h + k, n);
}

/// What is gathered for a row is as wide as its queries.
proof fn lemma_row_width<T: Scalar>(
    t: AttentionView<T>,
    x: TensorView<T>,
    start: int,
    cache: KVCacheView<T>,
)
    requires
        t.wf(),
        t.accepts(x, start, cache),
        x.shape[0] > 0,
    ensures
        gathered_rows(t, x, start, cache).shape[1] == t.q_dim(),
{
    lemma_cached_keys(t, x, start, cache);
}

/// Normalizing goes part by part.
pub proof fn normalizing_in_parts<T: Scalar>(
    norm: RMSNormView<T>,
    a: TensorView<T>,
    b: TensorView<T>,
)
    requires
        stackable(a, b),
    ensures
        stackable(norm.output(a), norm.output(b)),
        norm.output(matrix::stacked(a, b)) == matrix::stacked(norm.output(a), norm.output(b)),
{
    let x = matrix::stacked(a, b);
    let (h, k, n) = (a.shape[0] as int, b.shape[0] as int, a.shape[1] as int);
    lemma_matrix_wf(a);
    lemma_matrix_wf(b);
    lemma_matrix_wf(norm.output(a));
    lemma_matrix_wf(norm.output(b));
    cache_laws::lemma_stacked_at(a, b);
    let (left, right) = (norm.output(x), matrix::stacked(norm.output(a), norm.output(b)));
    assert(left.shape =~= right.shape);
    assert((h + k) * n == h * n + k * n) by (nonlinear_arith);
    assert forall|p: int| 0 <= p < left.data.len() implies left.data[p] == right.data[p] by {
        lemma_place(p, h + k, n);
        let (r, j) = (p / n, p % n);
        if r < h {
            lemma_cell(r, j, h, n);
            assert(x.data.subrange(r * n, r * n + n) =~= a.data.subrange(r * n, r * n + n));
        } else {
            let l = r - h;
            lemma_cell(l, j, k, n);
            assert(r * n == h * n + l * n) by (nonlinear_arith)
                requires
                    l == r - h,
            ;
            assert(x.data.subrange(r * n, r * n + n) =~= b.data.subrange(l * n, l * n + n));
        }
    }
    assert(left.data =~= right.data);
}

/// Adding goes part by part.
pub proof fn adding_in_parts<T: Scalar>(
    a: TensorView<T>,
    b: TensorView<T>,
    c: TensorView<T>,
    d: TensorView<T>,
)
    requires
        stackable(a, b),
        stackable(c, d),
        a.shape == c.shape,
        b.shape == d.shape,
    ensures
        stackable(pointwise::sum(a, c), pointwise::sum(b, d)),
        pointwise::sum(matrix::stacked(a, b), matrix::stacked(c, d)) == matrix::stacked(
            pointwise::sum(a, c),
            pointwise::sum(b, d),
        ),
{
    let left = pointwise::sum(matrix::stacked(a, b), matrix::stacked(c, d));
    let right = matrix::stacked(pointwise::sum(a, c), pointwise::sum(b, d));
    assert(matrix::stacked(a, b).shape =~= matrix::stacked(c, d).shape);
    assert(left.data =~= right.data);
}

/// The feed-forward network goes part by part.
pub proof fn feeding_forward_in_parts<T: Scalar>(
    net: FeedForwardView<T>,
    a: TensorView<T>,
    b: TensorView<T>,
)
    requires
        net.wf(),
        stackable(a, b),
        a.shape[1] == net.hidden(),
    ensures
        stackable(net.output(a), net.output(b)),
        net.output(a).shape == a.shape,
        net.output(b).shape == b.shape,
        net.output(matrix::stacked(a, b)) == matrix::stacked(net.output(a), net.output(b)),
{
    let x = matrix::stacked(a, b);
    multiplying_in_parts(a, b, net.gate_proj);
    multiplying_in_parts(a, b, net.up_proj);
    lemma_linear_shape(a, net.gate_proj);
    lemma_linear_shape(b, net.gate_proj);
    lemma_linear_shape(a, net.up_proj);
    lemma_linear_shape(b, net.up_proj);
    let (ga, gb, gx) = (net.gated(a), net.gated(b), net.gated(x));
    assert(gx.shape =~= matrix::stacked(ga, gb).shape);
    assert(gx.data =~= matrix::stacked(ga, gb).data);
    lemma_matrix_wf(ga);
    lemma_matrix_wf(gb);
    multiplying_in_parts(ga, gb, net.down_proj);
    lemma_linear_shape(ga, net.down_proj);
    lemma_linear_shape(gb, net.down_proj);
    assert(net.output(a).shape =~= a.shape);
    assert(net.output(b).shape =~= b.shape);
}

/// A block goes part by part: positions in two parts, one after the other, give what
/// they give together, wherever the later rows are nothing to the earlier ones.
pub proof fn block_in_parts<T: Scalar>(
    t: TransformerBlockView<T>,
    a: TensorView<T>,
    b: TensorView<T>,
    start: int,
    cache: KVCacheView<T>,
)
    requires
        t.wf(),
        stackable(a, b),
        t.accepts_rows(a.shape[0] + b.shape[0], a.shape[1] as int, start, cache),
        0 <= start <= cache.rows(),
        later_rows_are_nothing(
            t.self_attn,
            t.input_layernorm.output(a),
            t.input_layernorm.output(b),
            start,
            cache,
        ),
    ensures
        ({
            let x = matrix::stacked(a, b);
            let next = t.next_cache(a, start, cache);
            let (first, second) = (
                t.output(a, start, cache),
                t.output(b, start + a.shape[0], next),
            );
            &&& stackable(first, second)
            &&& first.shape == a.shape
            &&& second.shape == b.shape
            &&& t.output(x, start, cache) == matrix::stacked(first, second)
            &&& t.next_cache(x, start, cache) == t.next_cache(b, start + a.shape[0], next)
        }),
{
    let x = matrix::stacked(a, b);
    let later = start + a.shape[0];
    let (na, nb) = (t.input_layernorm.output(a), t.input_layernorm.output(b));
    let next = t.next_cache(a, start, cache);
    normalizing_in_parts(t.input_layernorm, a, b);
    cache_laws::lemma_stacked_at(na, nb);
    attending_in_parts(t.self_attn, na, nb, start, cache);
    cache_laws::caching_in_parts(t.self_attn, na, nb, start, cache);
    passes::lemma_attention_shape(t.self_attn, na, start, cache);
    passes::lemma_attention_shape(t.self_attn, nb, later, next);
    let (ta, tb) = (
        t.self_attn.output(na, start, cache),
        t.self_attn.output(nb, later, next),
    );
    adding_in_parts(a, b, ta, tb);
    let (ma, mb) = (t.attended(a, start, cache), t.attended(b, later, next));
    normalizing_in_parts(t.post_attention_layernorm, ma, mb);
    let (pa, pb) = (
        t.post_attention_layernorm.output(ma),
        t.post_attention_layernorm.output(mb),
    );
    feeding_forward_in_parts(t.ffn, pa, pb);
    adding_in_parts(ma, mb, t.ffn.output(pa), t.ffn.output(pb));
}

/// Adding a matrix of zeros changes nothing, wherever adding zero does not.
pub proof fn adding_a_zero_matrix<T: Scalar>(x: TensorView<T>, z: TensorView<T>)
    requires
        x.wf(),
        x.ndim() == 2,
        matrix::is_zero(z),
        z.shape == x.shape,
        forall|p: int| 0 <= p < x.data.len() ==> plus(#[trigger] x.data[p], zero()) == x.data[p],
    ensures
        pointwise::sum(x, z) == x,
{
    let (m, n) = (x.shape[0] as int, x.shape[1] as int);
    lemma_matrix_wf(x);
    lemma_matrix_wf(z);
    let s = pointwise::sum(x, z);
    assert forall|p: int| 0 <= p < x.data.len() implies s.data[p] == x.data[p] by {
        lemma_place(p, m, n);
        assert(z.at(p / n, p % n) == zero::<T>());
    }
    assert(s.data =~= x.data);
}

/// Whether what attention gathers for `x` in this block adds nothing without its share,
/// and adding zero does not change `x`.
pub open spec fn gathers_quietly<T: Scalar>(
    t: TransformerBlockView<T>,
    x: TensorView<T>,
    start: int,
    cache: KVCacheView<T>,
) -> bool {
    let g = gathering::gathered_for(t.self_attn, t.input_layernorm.output(x), start, cache);
    &&& forall|i: int, c: int|
        0 <= i < g.shape[0] && 0 <= c < g.shape[1] ==> adds_nothing(#[trigger] g.at(i, c))
    &&& forall|p: int| 0 <= p < x.data.len() ==> plus(#[trigger] x.data[p], zero()) == x.data[p]
}

/// Whether what the network of this block has in between for `x` adds nothing without its
/// share, and adding zero does not change `x`.
pub open spec fn feeds_quietly<T: Scalar>(t: TransformerBlockView<T>, x: TensorView<T>) -> bool {
    let g = t.ffn.gated(t.post_attention_layernorm.output(x));
    &&& forall|i: int, c: int|
        0 <= i < g.shape[0] && 0 <= c < g.shape[1] ==> adds_nothing(#[trigger] g.at(i, c))
    &&& forall|p: int| 0 <= p < x.data.len() ==> plus(#[trigger] x.data[p], zero()) == x.data[p]
}

/// The way past attention: a block whose attention projects to zero passes its rows on to
/// the network as they are.
pub proof fn rows_pass_by_attention<T: Scalar>(
    t: TransformerBlockView<T>,
    x: TensorView<T>,
    start: int,
    cache: KVCacheView<T>,
)
    requires
        t.wf(),
        x.wf(),
        x.ndim() == 2,
        t.weights_fit(x.shape[1] as int),
        matrix::is_zero(t.self_attn.o_proj),
        gathers_quietly(t, x, start, cache),
    ensures
        t.attended(x, start, cache) == x,
        t.output(x, start, cache) == pointwise::sum(
            x,
            t.ffn.output(t.post_attention_layernorm.output(x)),
        ),
{
    let normed = t.input_layernorm.output(x);
    let g = gathering::gathered_for(t.self_attn, normed, start, cache);
    passes::lemma_attention_shape(t.self_attn, normed, start, cache);
    assert(g.shape =~= seq![x.shape[0], t.self_attn.q_dim() as usize]);
    ffn::linear_by_zeros(g, t.self_attn.o_proj);
    adding_a_zero_matrix(x, t.self_attn.output(normed, start, cache));
}

/// The way past the network: a block whose network projects to zero gives its rows and
/// what attention makes of them.
pub proof fn rows_pass_by_the_network<T: Scalar>(
    t: TransformerBlockView<T>,
    x: TensorView<T>,
    start: int,
    cache: KVCacheView<T>,
)
    requires
        t.wf(),
        x.wf(),
        x.ndim() == 2,
        t.weights_fit(x.shape[1] as int),
        matrix::is_zero(t.ffn.down_proj),
        feeds_quietly(
            t,
            pointwise::sum(
                x,
                t.self_attn.output(t.input_layernorm.output(x), start, cache),
            ),
        ),
    ensures
        t.output(x, start, cache) == pointwise::sum(
            x,
            t.self_attn.output(t.input_layernorm.output(x), start, cache),
        ),
{
    let normed = t.input_layernorm.output(x);
    passes::lemma_attention_shape(t.self_attn, normed, start, cache);
    let mid = pointwise::sum(x, t.self_attn.output(normed, start, cache));
    assert(mid.shape == x.shape);
    assert(mid.wf());
    let g = t.ffn.gated(t.post_attention_layernorm.output(mid));
    assert(g.shape =~= seq![x.shape[0], t.ffn.gate_proj.shape[0]]);
    ffn::linear_by_zeros(g, t.ffn.down_proj);
    let out = t.ffn.output(t.post_attention_layernorm.output(mid));
    assert(out.shape =~= mid.shape);
    adding_a_zero_matrix(mid, out);
}

/// A block is its attention and then its network: it gives what the block without
/// attention makes of what the block without network gives.
pub proof fn attention_comes_before_the_network<T: Scalar>(
    t: TransformerBlockView<T>,
    attending: TransformerBlockView<T>,
    feeding: TransformerBlockView<T>,
    x: TensorView<T>,
    start: int,
    cache: KVCacheView<T>,
)
    requires
        t.wf(),
        attending.wf(),
        feeding.wf(),
        x.wf(),
        x.ndim() == 2,
        t.weights_fit(x.shape[1] as int),
        attending.weights_fit(x.shape[1] as int),
        feeding.weights_fit(x.shape[1] as int),
        attending.input_layernorm == t.input_layernorm,
        attending.self_attn == t.self_attn,
        matrix::is_zero(attending.ffn.down_proj),
        feeding.post_attention_layernorm == t.post_attention_layernorm,
        feeding.ffn == t.ffn,
        matrix::is_zero(feeding.self_attn.o_proj),
        feeds_quietly(
            attending,
            pointwise::sum(
                x,
                t.self_attn.output(t.input_layernorm.output(x), start, cache),
            ),
        ),
        gathers_quietly(
            feeding,
            pointwise::sum(
                x,
                t.self_attn.output(t.input_layernorm.output(x), start, cache),
            ),
            start,
            cache,
        ),
    ensures
        t.output(x, start, cache) == feeding.output(
            attending.output(x, start, cache),
            start,
            cache,
        ),
{
    let normed = t.input_layernorm.output(x);
    passes::lemma_attention_shape(t.self_attn, normed, start, cache);
    rows_pass_by_the_network(attending, x, start, cache);
    let mid = pointwise::sum(x, t.self_attn.output(normed, start, cache));
    assert(mid.wf() && mid.shape == x.shape);
    rows_pass_by_attention(feeding, mid, start, cache);
}

/// The cache of a block holds the keys and values of its normalized rows: blocks that
/// agree in the first norm and in attention leave the same cache, whatever their second
/// norms and networks are.
pub proof fn caching_comes_before_the_network<T: Scalar>(
    t: TransformerBlockView<T>,
    u: TransformerBlockView<T>,
    x: TensorView<T>,
    start: int,
    cache: KVCacheView<T>,
)
    requires
        t.input_layernorm == u.input_layernorm,
        t.self_attn == u.self_attn,
    ensures
        t.next_cache(x, start, cache) == u.next_cache(x, start, cache),
        t.next_cache(x, start, cache) == t.self_attn.next_cache(
            t.input_layernorm.output(x),
            start,
            cache,
        ),
        t.attended(x, start, cache) == u.attended(x, start, cache),
{
}

/// A block adds twice: what attention makes of the rows normalized by the first norm is
/// added to the rows, and what the network makes of that, normalized by the second norm, is
/// added to it.
pub proof fn block_adds_twice<T: Scalar>(
    t: TransformerBlockView<T>,
    x: TensorView<T>,
    start: int,
    cache: KVCacheView<T>,
    mid: TensorView<T>,
    i: int,
    j: int,
)
    requires
        t.wf(),
        x.wf(),
        x.ndim() == 2,
        t.weights_fit(x.shape[1] as int),
        0 <= i < x.shape[0],
        0 <= j < x.shape[1],
        mid.wf(),
        mid.shape == x.shape,
        forall|r: int, c: int|
            0 <= r < x.shape[0] && 0 <= c < x.shape[1] ==> #[trigger] mid.at(r, c) == plus(
                x.at(r, c),
                t.self_attn.output(t.input_layernorm.output(x), start, cache).at(r, c),
            ),
    ensures
        t.output(x, start, cache).at(i, j) == plus(
            mid.at(i, j),
            t.ffn.output(t.post_attention_layernorm.output(mid)).at(i, j),
        ),
{
    let (m, n) = (x.shape[0] as int, x.shape[1] as int);
    let normed = t.input_layernorm.output(x);
    passes::lemma_attention_shape(t.self_attn, normed, start, cache);
    let first = t.attended(x, start, cache);
    lemma_matrix_wf(x);
    lemma_matrix_wf(first);
    lemma_matrix_wf(mid);
    assert forall|r: int, c: int| 0 <= r < m && 0 <= c < n implies #[trigger] first.at(r, c)
        == mid.at(r, c) by {
        lemma_cell(r, c, m, n);
    }
    lemma_matrix_ext(first, mid, m, n);
    let second = t.ffn.output(t.post_attention_layernorm.output(mid));
    assert(second.shape =~= x.shape);
    lemma_cell(i, j, m, n);
}

} // verus!
