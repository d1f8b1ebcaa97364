//! What a pass through the model gives and leaves behind.
use crate::attention::{AttentionView, KVCacheView};
use crate::cache_laws;
use crate::ffn;
use crate::matrix;
use crate::model::QwenModelView;
use crate::parts::{
    block_in_parts, later_rows_are_nothing, multiplying_in_parts, normalizing_in_parts, stackable,
};
use crate::rmsnorm;
use crate::scalar::{one, one_is_neutral, over, plus, times, zero, Scalar};
use crate::softmax;
use crate::tensor::{lemma_matrix_at, lemma_matrix_ext, lemma_matrix_wf, TensorView};
use crate::transformer_block::TransformerBlockView;
use vstd::prelude::*;

verus! {

/// Attention gives a row for each row that it takes, of the same width.
pub proof fn lemma_attention_shape<T: Scalar>(
    t: AttentionView<T>,
    x: TensorView<T>,
    start_pos: int,
    cache: KVCacheView<T>,
)
    requires
        x.ndim() == 2,
        t.weights_fit(x.shape[1] as int),
    ensures
        t.output(x, start_pos, cache).shape == x.shape,
        t.keys(x, start_pos).shape[0] == x.shape[0],
        t.values(x).shape[0] == x.shape[0],
{
    assert(t.queries(x, start_pos).shape[0] == x.shape[0]);
    assert(t.output(x, start_pos, cache).shape =~= x.shape);
}

/// A block gives a row for each row that it takes, of the same width.
pub proof fn lemma_block_shape<T: Scalar>(
    t: TransformerBlockView<T>,
    x: TensorView<T>,
    start_pos: int,
    cache: KVCacheView<T>,
)
    requires
        x.ndim() == 2,
        t.wf(),
        t.weights_fit(x.shape[1] as int),
    ensures
        t.output(x, start_pos, cache).shape == x.shape,
{
    let normed = t.input_layernorm.output(x);
    lemma_attention_shape(t.self_attn, normed, start_pos, cache);
    let mid = t.attended(x, start_pos, cache);
    assert(mid.shape == x.shape);
    let second = t.ffn.output(t.post_attention_layernorm.output(mid));
    assert(second.shape =~= x.shape);
}

/// There is a row for each token after every layer.
pub proof fn lemma_hidden_shape<T: Scalar>(
    m: QwenModelView<T>,
    ids: Seq<usize>,
    start_pos: int,
    k: int,
)
    requires
        m.weights_wf(),
        0 <= k <= m.layers.len(),
    ensures
        m.hidden_after(ids, start_pos, k).shape == seq![ids.len() as usize, m.hidden_size],
    decreases k,
{
    if k > 0 {
        lemma_hidden_shape(m, ids, start_pos, k - 1);
        assert(m.layers[k - 1].wf());
        lemma_block_shape(
            m.layers[k - 1],
            m.hidden_after(ids, start_pos, k - 1),
            start_pos,
            m.kv_caches[k - 1],
        );
    }
}

/// Tokens that have been seen are in every cache.
pub proof fn seen_tokens_are_cached<T: Scalar>(
    m: QwenModelView<T>,
    ids: Seq<usize>,
    start_pos: int,
    k: int,
)
    requires
        m.weights_wf(),
        0 <= k < m.layers.len(),
        m.kv_caches[k].rows() + ids.len() <= usize::MAX,
    ensures
        m.after(ids, start_pos).kv_caches[k].rows() == m.kv_caches[k].rows() + ids.len(),
{
    let x = m.hidden_after(ids, start_pos, k);
    lemma_hidden_shape(m, ids, start_pos, k);
    assert(m.layers[k].wf());
    let normed = m.layers[k].input_layernorm.output(x);
    assert(m.kv_caches[k].rows() >= 0);
    lemma_attention_shape(m.layers[k].self_attn, normed, start_pos, m.kv_caches[k]);
}

/// The last row of the logits has a number for every token that could come next.
pub proof fn lemma_last_logits<T: Scalar>(m: QwenModelView<T>, ids: Seq<usize>, start_pos: int)
    requires
        m.weights_wf(),
        0 < ids.len() <= usize::MAX,
    ensures
        m.logits(ids, start_pos).row_seq(ids.len() - 1).len() == m.lm_head.shape[0],
        m.logits(ids, start_pos).shape[0] == ids.len(),
{
    let n = m.layers.len() as int;
    lemma_hidden_shape(m, ids, start_pos, n);
    let (s, v) = (ids.len() as int, m.lm_head.shape[0] as int);
    assert((s - 1) * v + v == s * v && (s - 1) * v >= 0 && (s - 1 + 1) * v == s * v)
        by (nonlinear_arith)
        requires
            s >= 1,
            v >= 0,
    ;
}

/// Whether the tokens `b`, which come later, are nothing to the tokens `a` in any
/// layer.
pub open spec fn later_tokens_are_nothing<T: Scalar>(
    m: QwenModelView<T>,
    a: Seq<usize>,
    b: Seq<usize>,
    start: int,
) -> bool {
    forall|k: int|
        0 <= k < m.layers.len() ==> later_rows_are_nothing(
            (#[trigger] m.layers[k]).self_attn,
            m.layers[k].input_layernorm.output(m.hidden_after(a, start, k)),
            m.layers[k].input_layernorm.output(
                m.after(a, start).hidden_after(b, start + a.len(), k),
            ),
            start,
            m.kv_caches[k],
        )
}

/// Whether the model can take the tokens `a` and `b` together, at positions from
/// `start` on, and has seen at least that many tokens.
pub open spec fn takes_in_parts<T: Scalar>(
    m: QwenModelView<T>,
    a: Seq<usize>,
    b: Seq<usize>,
    start: int,
) -> bool {
    &&& m.accepts((a.len() + b.len()) as int, start)
    &&& a.len() + b.len() <= usize::MAX
    &&& 0 <= start
    &&& forall|k: int|
        0 <= k < m.layers.len() ==> start <= (#[trigger] m.kv_caches[k]).rows()
}

/// Whether `whole` is the rows of `first` and the rows of `second`, `h` and `l` rows of
/// width `n`.
#[verifier::opaque]
spec fn falls_into<T: Scalar>(
    whole: TensorView<T>,
    first: TensorView<T>,
    second: TensorView<T>,
    h: nat,
    l: nat,
    n: usize,
) -> bool {
    &&& stackable(first, second)
    &&& first.shape == seq![h as usize, n]
    &&& second.shape == seq![l as usize, n]
    &&& whole == matrix::stacked(first, second)
}

/// Whether the rows after the first `k` layers are the rows of the two parts.
spec fn hidden_splits<T: Scalar>(
    m: QwenModelView<T>,
    a: Seq<usize>,
    b: Seq<usize>,
    start: int,
    k: int,
) -> bool {
    falls_into(
        m.hidden_after(a + b, start, k),
        m.hidden_after(a, start, k),
        m.after(a, start).hidden_after(b, start + a.len(), k),
        a.len(),
        b.len(),
        m.hidden_size,
    )
}

/// What a block makes of rows that fall into two parts falls into what it makes of the
/// parts, and it leaves the same cache.
proof fn lemma_block_in_parts<T: Scalar>(
    t: TransformerBlockView<T>,
    x: TensorView<T>,
    a: TensorView<T>,
    b: TensorView<T>,
    h: nat,
    l: nat,
    n: usize,
    start: int,
    cache: KVCacheView<T>,
)
    requires
        falls_into(x, a, b, h, l, n),
        h + l <= usize::MAX,
        t.wf(),
        t.accepts_rows((h + l) as int, n as int, start, cache),
        0 <= start <= cache.rows(),
        later_rows_are_nothing(
            t.self_attn,
            t.input_layernorm.output(a),
            t.input_layernorm.output(b),
            start,
            cache,
        ),
    ensures
        falls_into(
            t.output(x, start, cache),
            t.output(a, start, cache),
            t.output(b, start + h, t.next_cache(a, start, cache)),
            h,
            l,
            n,
        ),
        t.next_cache(x, start, cache) == t.next_cache(
            b,
            start + h,
            t.next_cache(a, start, cache),
        ),
{
    reveal(falls_into);
    block_in_parts(t, a, b, start, cache);
}

/// The layers up to `k` go part by part.
proof fn lemma_hidden_in_parts<T: Scalar>(
    m: QwenModelView<T>,
    a: Seq<usize>,
    b: Seq<usize>,
    start: int,
    k: int,
)
    requires
        takes_in_parts(m, a, b, start),
        later_tokens_are_nothing(m, a, b, start),
        0 <= k <= m.layers.len(),
    ensures
        hidden_splits(m, a, b, start, k),
    decreases k,
{
    if k == 0 {
        lemma_embedded_in_parts(m, a, b);
    } else {
        lemma_hidden_in_parts(m, a, b, start, k - 1);
        lemma_layer_in_parts(m, a, b, start, k - 1);
    }
}

/// Layer `k` goes part by part where the layers before it do.
proof fn lemma_layer_in_parts<T: Scalar>(
    m: QwenModelView<T>,
    a: Seq<usize>,
    b: Seq<usize>,
    start: int,
    k: int,
)
    requires
        takes_in_parts(m, a, b, start),
        later_tokens_are_nothing(m, a, b, start),
        0 <= k < m.layers.len(),
        hidden_splits(m, a, b, start, k),
    ensures
        hidden_splits(m, a, b, start, k + 1),
        m.next_cache(a + b, start, k) == m.after(a, start).next_cache(b, start + a.len(), k),
{
    let layer = m.layers[k];
    let cache = m.kv_caches[k];
    let next = m.after(a, start);
    let later = start + a.len();
    assert(layer.wf() && layer.accepts_rows(
        (a.len() + b.len()) as int,
        m.hidden_size as int,
        start,
        cache,
    ));
    assert(start <= cache.rows());
    assert(next.kv_caches[k] == m.next_cache(a, start, k));
    lemma_block_in_parts(
        layer,
        m.hidden_after(a + b, start, k),
        m.hidden_after(a, start, k),
        next.hidden_after(b, later, k),
        a.len(),
        b.len(),
        m.hidden_size,
        start,
        cache,
    );
}

proof fn lemma_embedded_in_parts<T: Scalar>(m: QwenModelView<T>, a: Seq<usize>, b: Seq<usize>)
    requires
        a.len() + b.len() <= usize::MAX,
    ensures
        falls_into(
            m.embedded(a + b),
            m.embedded(a),
            m.embedded(b),
            a.len(),
            b.len(),
            m.hidden_size,
        ),
{
    reveal(falls_into);
    let (h, k, n) = (a.len() as int, b.len() as int, m.hidden_size as int);
    assert((h + k) * n == h * n + k * n && 0 <= h * n && 0 <= k * n) by (nonlinear_arith)
        requires
            h >= 0,
            k >= 0,
            n >= 0,
    ;
    let (ea, eb, ex) = (m.embedded(a), m.embedded(b), m.embedded(a + b));
    lemma_matrix_wf(ea);
    lemma_matrix_wf(eb);
    lemma_matrix_wf(ex);
    cache_laws::lemma_stacked_at(ea, eb);
    let s = matrix::stacked(ea, eb);
    let x = a + b;
    assert forall|i: int, j: int| 0 <= i < h + k && 0 <= j < n implies #[trigger] ex.at(i, j)
        == s.at(i, j) by {
        lemma_matrix_at(
            x.len() as usize,
            m.hidden_size,
            |i: int, j: int| m.embed_tokens.at(x[i] as int, j),
            i,
            j,
        );
        if i < h {
            lemma_matrix_at(
                a.len() as usize,
                m.hidden_size,
                |i: int, j: int| m.embed_tokens.at(a[i] as int, j),
                i,
                j,
            );
        } else {
            lemma_matrix_at(
                b.len() as usize,
                m.hidden_size,
                |i: int, j: int| m.embed_tokens.at(b[i] as int, j),
                i - h,
                j,
            );
        }
    }
    lemma_matrix_ext(ex, s, h + k, n);
}

/// A model goes part by part: tokens that are passed through it in two parts, one
/// after the other, give the logits that they give together, and leave the same
/// caches, wherever the later tokens are nothing to the earlier ones. What was seen
/// need not be passed through the model again.
pub proof fn passing_in_parts<T: Scalar>(
    m: QwenModelView<T>,
    a: Seq<usize>,
    b: Seq<usize>,
    start: int,
)
    requires
        takes_in_parts(m, a, b, start),
        later_tokens_are_nothing(m, a, b, start),
    ensures
        m.logits(a + b, start) == matrix::stacked(
            m.logits(a, start),
            m.after(a, start).logits(b, start + a.len()),
        ),
        m.after(a + b, start) == m.after(a, start).after(b, start + a.len()),
{
    let next = m.after(a, start);
    let later = start + a.len();
    let n = m.layers.len() as int;
    lemma_hidden_in_parts(m, a, b, start, n);
    reveal(falls_into);
    let (ha, hb) = (m.hidden_after(a, start, n), next.hidden_after(b, later, n));
    normalizing_in_parts(m.norm, ha, hb);
    multiplying_in_parts(m.norm.output(ha), m.norm.output(hb), m.lm_head);
    let (left, right) = (m.after(a + b, start), next.after(b, later));
    assert forall|k: int| 0 <= k < n implies #[trigger] left.kv_caches[k]
        == right.kv_caches[k] by {
        lemma_hidden_in_parts(m, a, b, start, k);
        lemma_layer_in_parts(m, a, b, start, k);
    }
    assert(left.kv_caches =~= right.kv_caches);
}

/// The last row of the logits is the same whether the tokens are passed through the
/// model together or in two parts.
pub proof fn last_logits_in_parts<T: Scalar>(
    m: QwenModelView<T>,
    a: Seq<usize>,
    b: Seq<usize>,
    start: int,
)
    requires
        takes_in_parts(m, a, b, start),
        later_tokens_are_nothing(m, a, b, start),
        b.len() > 0,
    ensures
        m.logits(a + b, start).row_seq(a.len() + b.len() - 1) == m.after(a, start).logits(
            b,
            start + a.len(),
        ).row_seq(b.len() - 1),
{
    let next = m.after(a, start);
    passing_in_parts(m, a, b, start);
    let (la, lb) = (m.logits(a, start), next.logits(b, start + a.len()));
    lemma_hidden_shape(m, a, start, m.layers.len() as int);
    lemma_hidden_shape(next, b, start + a.len(), m.layers.len() as int);
    let (h, k, v) = (a.len() as int, b.len() as int, m.lm_head.shape[0] as int);
    assert(la.data.len() == h * v && lb.data.len() == k * v) by (nonlinear_arith)
        requires
            la.data.len() == (h * v) as nat,
            lb.data.len() == (k * v) as nat,
            h >= 0,
            k >= 0,
            v >= 0,
    ;
    assert((h + k - 1) * v == h * v + (k - 1) * v && (h + k) * v == h * v + k * v && (k - 1) * v
        + v == k * v && 0 <= (k - 1) * v && 0 <= h * v) by (nonlinear_arith)
        requires
            h >= 0,
            k >= 1,
            v >= 0,
    ;
    let all = m.logits(a + b, start);
    assert(all.row_seq(h + k - 1) =~= lb.row_seq(k - 1));
}

/// The rows after the layers are stored row by row.
proof fn lemma_hidden_wf<T: Scalar>(
    m: QwenModelView<T>,
    ids: Seq<usize>,
    start_pos: int,
    k: int,
)
    requires
        m.weights_wf(),
        0 <= k <= m.layers.len(),
        ids.len() <= usize::MAX,
    ensures
        m.hidden_after(ids, start_pos, k).wf(),
        m.hidden_after(ids, start_pos, k).shape == seq![ids.len() as usize, m.hidden_size],
    decreases k,
{
    lemma_hidden_shape(m, ids, start_pos, k);
    if k == 0 {
        let e = m.embedded(ids);
        assert(0 <= ids.len() * m.hidden_size) by (nonlinear_arith)
            requires
                ids.len() >= 0,
        ;
        lemma_matrix_wf(e);
    } else {
        lemma_hidden_wf(m, ids, start_pos, k - 1);
        let x = m.hidden_after(ids, start_pos, k - 1);
        let t = m.layers[k - 1];
        assert(t.wf());
        let cache = m.kv_caches[k - 1];
        lemma_attention_shape(t.self_attn, t.input_layernorm.output(x), start_pos, cache);
        let mid = t.attended(x, start_pos, cache);
        assert(mid.wf() && mid.shape == x.shape);
        let second = t.ffn.output(t.post_attention_layernorm.output(mid));
        assert(second.shape =~= x.shape);
    }
}

/// Row `i` of the rows after all the layers.
pub open spec fn last_hidden_row<T: Scalar>(
    m: QwenModelView<T>,
    ids: Seq<usize>,
    start_pos: int,
    i: int,
) -> Seq<T> {
    let h = m.hidden_after(ids, start_pos, m.layers.len() as int);
    Seq::new(m.hidden_size as nat, |c: int| h.at(i, c))
}

/// Logits come from normalized rows: the one of token `i` for token `j` is the sum, from
/// the first on, of the numbers of the last row of token `i`, each divided by the root of
/// the mean square of that row, times the weight of the last norm, times the numbers of
/// row `j` of the output projection.
pub proof fn logits_come_from_normalized_rows<T: Scalar>(
    m: QwenModelView<T>,
    ids: Seq<usize>,
    start_pos: int,
    i: int,
    j: int,
)
    requires
        m.wf(),
        0 <= i < ids.len() <= usize::MAX,
        0 <= j < m.lm_head.shape[0],
    ensures
        ({
            let h = last_hidden_row(m, ids, start_pos, i);
            let inverse = over(one(), rmsnorm::root_mean_square(h, m.norm.eps));
            m.logits(ids, start_pos).at(i, j) == softmax::total(
                Seq::new(
                    m.hidden_size as nat,
                    |c: int|
                        times(
                            times(times(h[c], inverse), m.norm.weight.data[c]),
                            m.lm_head.at(j, c),
                        ),
                ),
            )
        }),
{
    let n = m.layers.len() as int;
    let x = m.hidden_after(ids, start_pos, n);
    lemma_hidden_wf(m, ids, start_pos, n);
    let h = last_hidden_row(m, ids, start_pos, i);
    rmsnorm::lemma_square_sum(h);
    let y = m.norm.output(x);
    ffn::linear_adds_products(y, m.lm_head, i, j);
    let inverse = over(one(), rmsnorm::root_mean_square(h, m.norm.eps));
    let expected = Seq::new(
        m.hidden_size as nat,
        |c: int|
            times(times(times(h[c], inverse), m.norm.weight.data[c]), m.lm_head.at(j, c)),
    );
    let found = Seq::new(y.shape[1] as nat, |c: int| times(y.at(i, c), m.lm_head.at(j, c)));
    assert forall|c: int| 0 <= c < m.hidden_size implies found[c] == expected[c] by {
        rmsnorm::lemma_normalized_at(m.norm, x, i, c);
        assert(Seq::new(x.shape[1] as nat, |e: int| x.at(i, e)) =~= h);
    }
    assert(found =~= expected);
}

/// Without the output projection, logits are the last rows over the root of their mean
/// square: where the projection is the identity and the last norm weighs by one, a logit
/// times that root is the number of the last row, wherever multiplying undoes dividing and
/// sums over a row select its elements.
pub proof fn last_norm_undone<T: Scalar>(
    m: QwenModelView<T>,
    ids: Seq<usize>,
    start_pos: int,
    i: int,
    j: int,
)
    requires
        m.wf(),
        0 <= i < ids.len() <= usize::MAX,
        0 <= j < m.hidden_size,
        matrix::is_identity(m.lm_head),
        m.norm.weight.data[j] == one::<T>(),
        one_is_neutral::<T>(),
        matrix::rows_select(
            m.norm.output(m.hidden_after(ids, start_pos, m.layers.len() as int)),
        ),
        ({
            let h = last_hidden_row(m, ids, start_pos, i);
            let r = rmsnorm::root_mean_square(h, m.norm.eps);
            times(times(h[j], over(one(), r)), r) == h[j]
        }),
    ensures
        ({
            let h = last_hidden_row(m, ids, start_pos, i);
            times(
                m.logits(ids, start_pos).at(i, j),
                rmsnorm::root_mean_square(h, m.norm.eps),
            ) == h[j]
        }),
{
    let n = m.layers.len() as int;
    let x = m.hidden_after(ids, start_pos, n);
    lemma_hidden_wf(m, ids, start_pos, n);
    let h = last_hidden_row(m, ids, start_pos, i);
    assert(Seq::new(x.shape[1] as nat, |c: int| x.at(i, c)) =~= h);
    rmsnorm::lemma_normalized_at(m.norm, x, i, j);
    rmsnorm::normalizing_undone(m.norm, x, i, j);
    ffn::linear_by_the_identity(m.norm.output(x), m.lm_head);
}

/// The last norm weighs the logits: of two models that agree but for the weight of the
/// last norm, which is one in the second, and that have the identity as output projection,
/// the first gives the logits of the second times its weights.
pub proof fn last_norm_weighs_the_logits<T: Scalar>(
    m: QwenModelView<T>,
    plain: QwenModelView<T>,
    ids: Seq<usize>,
    start_pos: int,
    i: int,
    j: int,
)
    requires
        m.wf(),
        plain.wf(),
        plain == (QwenModelView { norm: plain.norm, ..m }),
        plain.norm.eps == m.norm.eps,
        plain.norm.weight.data[j] == one::<T>(),
        0 <= i < ids.len() <= usize::MAX,
        0 <= j < m.hidden_size,
        matrix::is_identity(m.lm_head),
        one_is_neutral::<T>(),
        matrix::rows_select(
            m.norm.output(m.hidden_after(ids, start_pos, m.layers.len() as int)),
        ),
        matrix::rows_select(
            plain.norm.output(m.hidden_after(ids, start_pos, m.layers.len() as int)),
        ),
    ensures
        m.logits(ids, start_pos).at(i, j) == times(
            plain.logits(ids, start_pos).at(i, j),
            m.norm.weight.data[j],
        ),
{
    let n = m.layers.len() as int;
    let x = m.hidden_after(ids, start_pos, n);
    lemma_same_hidden(m, plain, ids, start_pos, n);
    lemma_hidden_wf(m, ids, start_pos, n);
    rmsnorm::lemma_normalized_at(m.norm, x, i, j);
    rmsnorm::lemma_normalized_at(plain.norm, x, i, j);
    rmsnorm::weighing_comes_last(m.norm, plain.norm, x, i, j);
    ffn::linear_by_the_identity(m.norm.output(x), m.lm_head);
    ffn::linear_by_the_identity(plain.norm.output(x), m.lm_head);
}

/// A last norm that weighs by zero leaves nothing: the logits of every token are zero,
/// wherever a number times zero adds nothing.
pub proof fn last_norm_can_silence<T: Scalar>(
    m: QwenModelView<T>,
    ids: Seq<usize>,
    start_pos: int,
    i: int,
    j: int,
)
    requires
        m.wf(),
        0 <= i < ids.len() <= usize::MAX,
        0 <= j < m.lm_head.shape[0],
        forall|c: int| 0 <= c < m.hidden_size ==> #[trigger] m.norm.weight.data[c] == zero::<T>(),
        ({
            let h = last_hidden_row(m, ids, start_pos, i);
            let inverse = over(one(), rmsnorm::root_mean_square(h, m.norm.eps));
            forall|c: int|
                0 <= c < m.hidden_size ==> plus(
                    zero(),
                    times(times(times(#[trigger] h[c], inverse), zero()), m.lm_head.at(j, c)),
                ) == zero::<T>()
        }),
    ensures
        m.logits(ids, start_pos).at(i, j) == zero::<T>(),
{
    logits_come_from_normalized_rows(m, ids, start_pos, i, j);
    let h = last_hidden_row(m, ids, start_pos, i);
    let inverse = over(one(), rmsnorm::root_mean_square(h, m.norm.eps));
    let summands = Seq::new(
        m.hidden_size as nat,
        |c: int|
            times(times(times(h[c], inverse), m.norm.weight.data[c]), m.lm_head.at(j, c)),
    );
    assert forall|c: int| 0 <= c < summands.len() implies plus(zero(), #[trigger] summands[c])
        == zero::<T>() by {
        assert(m.norm.weight.data[c] == zero::<T>());
        assert(plus(
            zero(),
            times(times(times(h[c], inverse), zero()), m.lm_head.at(j, c)),
        ) == zero::<T>());
    }
    lemma_nothing_added(summands);
}

proof fn lemma_nothing_added<T: Scalar>(v: Seq<T>)
    requires
        forall|c: int| 0 <= c < v.len() ==> plus(zero(), #[trigger] v[c]) == zero::<T>(),
    ensures
        softmax::total(v) == zero::<T>(),
    decreases v.len(),
{
    if v.len() > 0 {
        let w = v.drop_last();
        assert forall|c: int| 0 <= c < w.len() implies plus(zero(), #[trigger] w[c]) == zero::<
            T,
        >() by {
            assert(w[c] == v[c]);
        }
        lemma_nothing_added(w);
        assert(plus(zero(), v[v.len() - 1]) == zero::<T>());
    }
}

proof fn lemma_same_hidden<T: Scalar>(
    m: QwenModelView<T>,
    u: QwenModelView<T>,
    ids: Seq<usize>,
    start_pos: int,
    k: int,
)
    requires
        m.hidden_size == u.hidden_size,
        m.embedded(ids) == u.embedded(ids),
        forall|l: int| 0 <= l < k ==> #[trigger] m.layers[l] == u.layers[l],
        forall|l: int| 0 <= l < k ==> #[trigger] m.kv_caches[l] == u.kv_caches[l],
    ensures
        m.hidden_after(ids, start_pos, k) == u.hidden_after(ids, start_pos, k),
    decreases k,
{
    if k > 0 {
        lemma_same_hidden(m, u, ids, start_pos, k - 1);
        assert(m.layers[k - 1] == u.layers[k - 1]);
        assert(m.kv_caches[k - 1] == u.kv_caches[k - 1]);
    }
}

/// The output projection comes last: a model gives what its output projection makes of
/// what the same model gives with the identity in its place, wherever sums over a row
/// select its elements.
pub proof fn output_projection_comes_last<T: Scalar>(
    m: QwenModelView<T>,
    plain: QwenModelView<T>,
    ids: Seq<usize>,
    start_pos: int,
)
    requires
        m.wf(),
        plain.wf(),
        plain == (QwenModelView { lm_head: plain.lm_head, ..m }),
        ids.len() <= usize::MAX,
        matrix::is_identity(plain.lm_head),
        matrix::rows_select(
            m.norm.output(m.hidden_after(ids, start_pos, m.layers.len() as int)),
        ),
    ensures
        m.logits(ids, start_pos) == ffn::linear(plain.logits(ids, start_pos), m.lm_head),
{
    let n = m.layers.len() as int;
    lemma_same_hidden(m, plain, ids, start_pos, n);
    lemma_hidden_wf(m, ids, start_pos, n);
    let x = m.hidden_after(ids, start_pos, n);
    ffn::linear_by_the_identity(m.norm.output(x), plain.lm_head);
}

/// Tokens come in by their rows in the embedding table: tokens whose rows are the same give
/// the same logits and leave the same caches, and other rows of the table do not matter.
pub proof fn tokens_are_their_rows<T: Scalar>(
    m: QwenModelView<T>,
    u: QwenModelView<T>,
    ids: Seq<usize>,
    others: Seq<usize>,
    start_pos: int,
)
    requires
        u == (QwenModelView { embed_tokens: u.embed_tokens, ..m }),
        others.len() == ids.len() <= usize::MAX,
        forall|i: int, c: int|
            0 <= i < ids.len() && 0 <= c < m.hidden_size ==> #[trigger] m.embed_tokens.at(
                ids[i] as int,
                c,
            ) == u.embed_tokens.at(others[i] as int, c),
    ensures
        forall|i: int, c: int|
            0 <= i < ids.len() && 0 <= c < m.hidden_size ==> #[trigger] m.hidden_after(
                ids,
                start_pos,
                0,
            ).at(i, c) == m.embed_tokens.at(ids[i] as int, c),
        m.logits(ids, start_pos) == u.logits(others, start_pos),
        m.after(ids, start_pos).kv_caches == u.after(others, start_pos).kv_caches,
{
    let (s, n) = (ids.len() as usize, m.hidden_size);
    let (a, b) = (m.embedded(ids), u.embedded(others));
    let f = |i: int, j: int| m.embed_tokens.at(ids[i] as int, j);
    let g = |i: int, j: int| u.embed_tokens.at(others[i] as int, j);
    assert forall|i: int, c: int| 0 <= i < s && 0 <= c < n implies #[trigger] a.at(i, c) == f(
        i,
        c,
    ) && a.at(i, c) == b.at(i, c) by {
        lemma_matrix_at(s, n, f, i, c);
        lemma_matrix_at(s, n, g, i, c);
        assert(m.embed_tokens.at(ids[i] as int, c) == u.embed_tokens.at(others[i] as int, c));
    }
    assert(0 <= s * n) by (nonlinear_arith);
    lemma_matrix_wf(a);
    lemma_matrix_wf(b);
    lemma_matrix_ext(a, b, s as int, n as int);
    assert forall|k: int| 0 <= k <= m.layers.len() implies #[trigger] m.hidden_after(
        ids,
        start_pos,
        k,
    ) == u.hidden_after(others, start_pos, k) by {
        lemma_hidden_of_same_rows(m, u, ids, others, start_pos, k);
    }
    assert(m.after(ids, start_pos).kv_caches =~= u.after(others, start_pos).kv_caches) by {
        assert forall|k: int| 0 <= k < m.layers.len() implies m.next_cache(ids, start_pos, k)
            == u.next_cache(others, start_pos, k) by {
            assert(m.hidden_after(ids, start_pos, k) == u.hidden_after(others, start_pos, k));
        }
    }
    let all = m.layers.len() as int;
    assert(m.hidden_after(ids, start_pos, all) == u.hidden_after(others, start_pos, all));
}

proof fn lemma_hidden_of_same_rows<T: Scalar>(
    m: QwenModelView<T>,
    u: QwenModelView<T>,
    ids: Seq<usize>,
    others: Seq<usize>,
    start_pos: int,
    k: int,
)
    requires
        u.layers == m.layers,
        u.kv_caches == m.kv_caches,
        m.embedded(ids) == u.embedded(others),
    ensures
        m.hidden_after(ids, start_pos, k) == u.hidden_after(others, start_pos, k),
    decreases k,
{
    if k > 0 {
        lemma_hidden_of_same_rows(m, u, ids, others, start_pos, k - 1);
    }
}

/// A layer more comes after the others: it takes what they give, at the same positions and
/// with its own cache.
pub proof fn layers_follow_one_another<T: Scalar>(
    m: QwenModelView<T>,
    t: TransformerBlockView<T>,
    cache: KVCacheView<T>,
    ids: Seq<usize>,
    start_pos: int,
)
    requires
        m.kv_caches.len() == m.layers.len(),
    ensures
        ({
            let n = m.layers.len() as int;
            let u = QwenModelView {
                layers: m.layers.push(t),
                kv_caches: m.kv_caches.push(cache),
                ..m
            };
            &&& u.hidden_after(ids, start_pos, n + 1) == t.output(
                m.hidden_after(ids, start_pos, n),
                start_pos,
                cache,
            )
            &&& u.after(ids, start_pos).kv_caches == m.after(ids, start_pos).kv_caches.push(
                t.next_cache(m.hidden_after(ids, start_pos, n), start_pos, cache),
            )
            &&& t.output(m.hidden_after(ids, start_pos, n), start_pos, cache) == m.hidden_after(
                ids,
                start_pos,
                n,
            ) ==> u.logits(ids, start_pos) == m.logits(ids, start_pos)
        }),
{
    let n = m.layers.len() as int;
    let u = QwenModelView {
        layers: m.layers.push(t),
        kv_caches: m.kv_caches.push(cache),
        ..m
    };
    assert(u.embedded(ids) == m.embedded(ids));
    assert forall|k: int| 0 <= k <= n implies #[trigger] m.hidden_after(ids, start_pos, k)
        == u.hidden_after(ids, start_pos, k) by {
        lemma_same_hidden(m, u, ids, start_pos, k);
    }
    assert(u.layers[n] == t && u.kv_caches[n] == cache);
    assert(m.hidden_after(ids, start_pos, n) == u.hidden_after(ids, start_pos, n));
    let (a, b) = (u.after(ids, start_pos).kv_caches, m.after(ids, start_pos).kv_caches);
    assert(a =~= b.push(t.next_cache(m.hidden_after(ids, start_pos, n), start_pos, cache))) by {
        assert forall|k: int| 0 <= k < n implies a[k] == b[k] by {
            assert(m.hidden_after(ids, start_pos, k) == u.hidden_after(ids, start_pos, k));
        }
    }
}

/// There is a row of logits for each token.
pub proof fn lemma_logits_wf<T: Scalar>(m: QwenModelView<T>, ids: Seq<usize>, start_pos: int)
    requires
        m.weights_wf(),
        ids.len() <= usize::MAX,
    ensures
        m.logits(ids, start_pos).wf(),
        m.logits(ids, start_pos).shape == seq![ids.len() as usize, m.lm_head.shape[0]],
{
    let n = m.layers.len() as int;
    lemma_hidden_shape(m, ids, start_pos, n);
    let l = m.logits(ids, start_pos);
    assert(0 <= l.shape[0] * l.shape[1]) by (nonlinear_arith)
        requires
            0 <= l.shape[0],
            0 <= l.shape[1],
    ;
    lemma_matrix_wf(l);
}

} // verus!
