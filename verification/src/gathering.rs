//! What attention gathers for a row, number by number, and what rows that come later
//! add to it.
use crate::attention::{AttentionView, KVCacheView};
use crate::ffn;
use crate::heads;
use crate::heads::{lemma_cube_at, masking_is_causal};
use crate::mask_laws;
use crate::mask_laws::{head_row, holds_keys};
use crate::matrix;
use crate::pointwise;
use crate::rope;
use crate::rope::{lemma_cube_cell, lemma_cube_volume};
use crate::scalar::{
    exp, from_count, less_than, lowest, minus, one, over, plus, sqrt, times, zero, Scalar,
};
use crate::softmax;
use crate::tensor::TensorView;
use vstd::prelude::*;

verus! {

/// The column of the keys and values in which dimension `d` of query head `h` finds
/// its own.
pub open spec fn column<T: Scalar>(layer: AttentionView<T>, h: int, d: int) -> int {
    h / layer.kv_groups() as int * layer.head_dim + d
}

/// The first `n` products of the query of row `i` with key `j`, for head `h`, added
/// from the first on.
pub open spec fn fit<T: Scalar>(
    layer: AttentionView<T>,
    q: TensorView<T>,
    keys: TensorView<T>,
    h: int,
    i: int,
    j: int,
    n: int,
) -> T
    decreases n,
{
    if n <= 0 {
        zero()
    } else {
        plus(
            fit(layer, q, keys, h, i, j, n - 1),
            times(rope::at3(q, i, h, n - 1), keys.at(j, column(layer, h, n - 1))),
        )
    }
}

/// The scores that the query of row `i` gives the keys, for head `h`: those after its
/// position are out of reach.
pub open spec fn scores<T: Scalar>(
    layer: AttentionView<T>,
    q: TensorView<T>,
    keys: TensorView<T>,
    start_pos: int,
    h: int,
    i: int,
) -> Seq<T> {
    Seq::new(
        keys.shape[0] as nat,
        |j: int|
            if j > start_pos + i {
                lowest()
            } else {
                times(fit(layer, q, keys, h, i, j, layer.head_dim as int), layer.scale())
            },
    )
}

/// Dimension `d` of the first `n` values, for head `h`, each times its weight, added
/// from the first on.
pub open spec fn blend<T: Scalar>(
    layer: AttentionView<T>,
    weights: Seq<T>,
    values: TensorView<T>,
    h: int,
    d: int,
    n: int,
) -> T
    decreases n,
{
    if n <= 0 {
        zero()
    } else {
        plus(
            blend(layer, weights, values, h, d, n - 1),
            times(weights[n - 1], values.at(n - 1, column(layer, h, d))),
        )
    }
}

/// Dimension `d` of what the query of row `i` gathers for head `h`.
pub open spec fn gathered_number<T: Scalar>(
    layer: AttentionView<T>,
    q: TensorView<T>,
    keys: TensorView<T>,
    values: TensorView<T>,
    start_pos: int,
    h: int,
    i: int,
    d: int,
) -> T {
    blend(
        layer,
        softmax::soft_lane(scores(layer, q, keys, start_pos, h, i)),
        values,
        h,
        d,
        keys.shape[0] as int,
    )
}

proof fn lemma_fit<T: Scalar>(
    layer: AttentionView<T>,
    q: TensorView<T>,
    keys: TensorView<T>,
    total: int,
    h: int,
    i: int,
    j: int,
    n: int,
)
    requires
        layer.wf(),
        q.shape == seq![q.shape[0], layer.num_heads, layer.head_dim],
        holds_keys(layer, keys, total),
        0 <= h < layer.num_heads,
        0 <= i < q.shape[0],
        0 <= j < total,
        0 <= n <= layer.head_dim,
    ensures
        heads::qk_dot(heads::swapped(q), heads::swapped(layer.shared(keys)), h, i, j, n) == fit(
            layer,
            q,
            keys,
            h,
            i,
            j,
            n,
        ),
    decreases n,
{
    if n > 0 {
        lemma_fit(layer, q, keys, total, h, i, j, n - 1);
        lemma_cube_at(
            layer.num_heads,
            q.shape[0],
            layer.head_dim,
            |i: int, j: int, d: int| rope::at3(q, j, i, d),
        );
        mask_laws::lemma_shared_key(layer, keys, total, j, h, n - 1);
    }
}

proof fn lemma_blend<T: Scalar>(
    layer: AttentionView<T>,
    weights: TensorView<T>,
    lane: Seq<T>,
    values: TensorView<T>,
    total: int,
    h: int,
    i: int,
    d: int,
    n: int,
)
    requires
        layer.wf(),
        holds_keys(layer, values, total),
        0 <= h < layer.num_heads,
        0 <= d < layer.head_dim,
        0 <= n <= total,
        forall|j: int| 0 <= j < total ==> #[trigger] rope::at3(weights, h, i, j) == lane[j],
    ensures
        heads::av_dot(weights, heads::swapped(layer.shared(values)), h, i, d, n) == blend(
            layer,
            lane,
            values,
            h,
            d,
            n,
        ),
    decreases n,
{
    if n > 0 {
        lemma_blend(layer, weights, lane, values, total, h, i, d, n - 1);
        mask_laws::lemma_shared_key(layer, values, total, n - 1, h, d);
        assert(rope::at3(weights, h, i, n - 1) == lane[n - 1]);
    }
}

/// The weights that row `i` gives, for head `h`, are the shares of its scores.
proof fn lemma_weights<T: Scalar>(
    layer: AttentionView<T>,
    q: TensorView<T>,
    keys: TensorView<T>,
    total: int,
    start_pos: int,
    h: int,
    i: int,
)
    requires
        layer.wf(),
        q.wf(),
        q.shape == seq![q.shape[0], layer.num_heads, layer.head_dim],
        holds_keys(layer, keys, total),
        0 <= h < layer.num_heads,
        0 <= i < q.shape[0],
    ensures
        layer.attention_weights(q, keys, start_pos).shape == seq![
            layer.num_heads,
            q.shape[0],
            total as usize,
        ],
        forall|j: int|
            0 <= j < total ==> #[trigger] rope::at3(
                layer.attention_weights(q, keys, start_pos),
                h,
                i,
                j,
            ) == softmax::soft_lane(scores(layer, q, keys, start_pos, h, i))[j],
{
    let (n, s, dim) = (layer.num_heads, q.shape[0], layer.head_dim);
    let (qs, ks) = (heads::swapped(q), heads::swapped(layer.shared(keys)));
    mask_laws::lemma_shared_shape(layer, keys, total);
    let a = heads::fits(qs, ks);
    let f = |h: int, i: int, j: int| heads::qk_dot(qs, ks, h, i, j, dim as int);
    assert(a =~= rope::cube(n, s, total as usize, f));
    lemma_cube_at(n, s, total as usize, f);
    let x = pointwise::scaled(a, layer.scale());
    lemma_cube_volume(x.shape);
    let m = heads::masked(x, start_pos);
    lemma_cube_volume(m.shape);
    let lane = scores(layer, q, keys, start_pos, h, i);
    assert forall|j: int| 0 <= j < total implies #[trigger] rope::at3(m, h, i, j) == lane[j] by {
        masking_is_causal(x, start_pos, h, i, j);
        lemma_fit(layer, q, keys, total, h, i, j, dim as int);
        lemma_cube_cell(h, i, j, n as int, s as int, total);
        assert(rope::at3(a, h, i, j) == f(h, i, j));
        assert(rope::at3(x, h, i, j) == times(rope::at3(a, h, i, j), layer.scale()));
    }
    assert(head_row(m, h, i) =~= lane);
    lemma_cube_at(
        n,
        s,
        total as usize,
        |h: int, i: int, j: int|
            if j > start_pos + i {
                lowest()
            } else {
                rope::at3(x, h, i, j)
            },
    );
    assert forall|j: int| 0 <= j < total implies #[trigger] rope::at3(
        layer.attention_weights(q, keys, start_pos),
        h,
        i,
        j,
    ) == softmax::soft_lane(lane)[j] by {
        mask_laws::soft_rows(m, h, i, j);
    }
}

/// Attention gathers number by number.
pub proof fn lemma_gathered<T: Scalar>(
    layer: AttentionView<T>,
    q: TensorView<T>,
    keys: TensorView<T>,
    values: TensorView<T>,
    total: int,
    start_pos: int,
    h: int,
    i: int,
    d: int,
)
    requires
        layer.wf(),
        q.wf(),
        q.shape == seq![q.shape[0], layer.num_heads, layer.head_dim],
        holds_keys(layer, keys, total),
        holds_keys(layer, values, total),
        0 <= h < layer.num_heads,
        0 <= i < q.shape[0],
        0 <= d < layer.head_dim,
        layer.q_dim() <= usize::MAX,
    ensures
        layer.gathered(q, keys, values, start_pos).at(i, h * layer.head_dim + d)
            == gathered_number(layer, q, keys, values, start_pos, h, i, d),
{
    let (n, s, dim) = (layer.num_heads, q.shape[0], layer.head_dim);
    let w = layer.attention_weights(q, keys, start_pos);
    let lane = softmax::soft_lane(scores(layer, q, keys, start_pos, h, i));
    lemma_weights(layer, q, keys, total, start_pos, h, i);
    let vs = heads::swapped(layer.shared(values));
    mask_laws::lemma_shared_shape(layer, values, total);
    lemma_blend(layer, w, lane, values, total, h, i, d, total);
    let sum = heads::weighted(w, vs);
    let f = |h: int, i: int, d: int| heads::av_dot(w, vs, h, i, d, total);
    assert(sum =~= rope::cube(n, s, dim, f));
    lemma_cube_at(n, s, dim, f);
    lemma_cube_at(s, n, dim, |i: int, j: int, d: int| rope::at3(sum, j, i, d));
    let flat = heads::swapped(sum);
    assert(flat.shape =~= seq![s, n, dim]);
    assert(rope::at3(flat, i, h, d) == rope::at3(sum, h, i, d));
    assert(rope::at3(sum, h, i, d) == f(h, i, d));
    assert((i * n + h) * dim + d == i * (n * dim) + (h * dim + d)) by (nonlinear_arith);
}

/// Whether scores that are out of reach, after those of `lane`, get no weight and
/// take none away: none is the largest, the power of e of each is zero, and zero adds
/// nothing to the sum and has no share in it.
pub open spec fn out_of_reach_is_nothing<T: Scalar>(lane: Seq<T>) -> bool {
    let most = softmax::lane_max(lane);
    let sum = softmax::total(softmax::shifted_exps(lane, most));
    &&& !less_than(most, lowest())
    &&& exp(minus(lowest::<T>(), most)) == zero::<T>()
    &&& plus(sum, zero()) == sum
    &&& over(zero(), sum) == zero::<T>()
}

/// `lane` and `n` scores out of reach after it.
spec fn extended<T: Scalar>(lane: Seq<T>, n: nat) -> Seq<T> {
    lane + Seq::new(n, |j: int| lowest::<T>())
}

proof fn lemma_extended<T: Scalar>(lane: Seq<T>, n: nat)
    requires
        out_of_reach_is_nothing(lane),
    ensures
        softmax::lane_max(extended(lane, n)) == softmax::lane_max(lane),
        ({
            let most = softmax::lane_max(lane);
            softmax::total(softmax::shifted_exps(extended(lane, n), most)) == softmax::total(
                softmax::shifted_exps(lane, most),
            )
        }),
    decreases n,
{
    let most = softmax::lane_max(lane);
    if n == 0 {
        assert(extended(lane, n) =~= lane);
    } else {
        let before = extended(lane, (n - 1) as nat);
        let all = extended(lane, n);
        lemma_extended(lane, (n - 1) as nat);
        assert(all.drop_last() =~= before);
        assert(all.last() == lowest::<T>());
        let (e, f) = (softmax::shifted_exps(all, most), softmax::shifted_exps(before, most));
        assert(e.drop_last() =~= f);
        assert(e.last() == zero::<T>());
    }
}

/// Scores out of reach leave the shares of the others as they are, and have none.
pub proof fn lemma_shares_of_extended<T: Scalar>(lane: Seq<T>, all: Seq<T>)
    requires
        out_of_reach_is_nothing(lane),
        lane.len() <= all.len(),
        forall|j: int|
            0 <= j < all.len() ==> #[trigger] all[j] == (if j < lane.len() {
                lane[j]
            } else {
                lowest()
            }),
    ensures
        forall|j: int|
            0 <= j < all.len() ==> #[trigger] softmax::soft_lane(all)[j] == (if j < lane.len() {
                softmax::soft_lane(lane)[j]
            } else {
                zero()
            }),
{
    let n = (all.len() - lane.len()) as nat;
    assert(all =~= extended(lane, n));
    lemma_extended(lane, n);
}

proof fn lemma_same_fit<T: Scalar>(
    layer: AttentionView<T>,
    q: TensorView<T>,
    i: int,
    keys: TensorView<T>,
    p: TensorView<T>,
    l: int,
    others: TensorView<T>,
    h: int,
    j: int,
    n: int,
)
    requires
        0 <= n <= layer.head_dim,
        forall|d: int|
            0 <= d < layer.head_dim ==> #[trigger] rope::at3(q, i, h, d) == rope::at3(p, l, h, d),
        forall|d: int|
            0 <= d < layer.head_dim ==> keys.at(j, #[trigger] column(layer, h, d)) == others.at(
                j,
                column(layer, h, d),
            ),
    ensures
        fit(layer, q, keys, h, i, j, n) == fit(layer, p, others, h, l, j, n),
    decreases n,
{
    if n > 0 {
        lemma_same_fit(layer, q, i, keys, p, l, others, h, j, n - 1);
        assert(rope::at3(q, i, h, n - 1) == rope::at3(p, l, h, n - 1));
        assert(keys.at(j, column(layer, h, n - 1)) == others.at(j, column(layer, h, n - 1)));
    }
}

/// What a query gathers is a matter of the query and its position, and of the keys
/// and values.
pub proof fn gathering_goes_row_by_row<T: Scalar>(
    layer: AttentionView<T>,
    q: TensorView<T>,
    i: int,
    start: int,
    p: TensorView<T>,
    l: int,
    start2: int,
    keys: TensorView<T>,
    values: TensorView<T>,
    h: int,
    d: int,
)
    requires
        start + i == start2 + l,
        forall|e: int|
            0 <= e < layer.head_dim ==> #[trigger] rope::at3(q, i, h, e) == rope::at3(p, l, h, e),
    ensures
        gathered_number(layer, q, keys, values, start, h, i, d) == gathered_number(
            layer,
            p,
            keys,
            values,
            start2,
            h,
            l,
            d,
        ),
{
    let (a, b) = (scores(layer, q, keys, start, h, i), scores(layer, p, keys, start2, h, l));
    assert forall|j: int| 0 <= j < a.len() implies a[j] == b[j] by {
        lemma_same_fit(layer, q, i, keys, p, l, keys, h, j, layer.head_dim as int);
    }
    assert(a =~= b);
}

/// Whether nothing is added for row `i` and head `h` by values that get no weight:
/// those of the rows of `later`.
pub open spec fn later_values_are_nothing<T: Scalar>(
    layer: AttentionView<T>,
    sum: T,
    later: TensorView<T>,
    h: int,
    d: int,
) -> bool {
    forall|r: int|
        0 <= r < later.shape[0] ==> plus(
            sum,
            times(zero(), #[trigger] later.at(r, column(layer, h, d))),
        ) == sum
}

proof fn lemma_blend_of_extended<T: Scalar>(
    layer: AttentionView<T>,
    weights: Seq<T>,
    values: TensorView<T>,
    all: Seq<T>,
    whole: TensorView<T>,
    h: int,
    d: int,
    n: int,
)
    requires
        0 <= n,
        forall|j: int| 0 <= j < n ==> #[trigger] weights[j] == all[j],
        forall|j: int|
            0 <= j < n ==> values.at(j, column(layer, h, d)) == #[trigger] whole.at(
                j,
                column(layer, h, d),
            ),
    ensures
        blend(layer, weights, values, h, d, n) == blend(layer, all, whole, h, d, n),
    decreases n,
{
    if n > 0 {
        lemma_blend_of_extended(layer, weights, values, all, whole, h, d, n - 1);
        assert(weights[n - 1] == all[n - 1]);
        assert(values.at(n - 1, column(layer, h, d)) == whole.at(n - 1, column(layer, h, d)));
    }
}

proof fn lemma_blend_of_nothing<T: Scalar>(
    layer: AttentionView<T>,
    all: Seq<T>,
    whole: TensorView<T>,
    h: int,
    d: int,
    n: int,
    total: int,
)
    requires
        0 <= n <= total,
        forall|j: int| n <= j < total ==> #[trigger] all[j] == zero::<T>(),
        forall|j: int|
            n <= j < total ==> plus(
                blend(layer, all, whole, h, d, n),
                times(zero(), #[trigger] whole.at(j, column(layer, h, d))),
            ) == blend(layer, all, whole, h, d, n),
    ensures
        blend(layer, all, whole, h, d, total) == blend(layer, all, whole, h, d, n),
    decreases total,
{
    if n < total {
        lemma_blend_of_nothing(layer, all, whole, h, d, n, total - 1);
        assert(all[total - 1] == zero::<T>());
        assert(plus(
            blend(layer, all, whole, h, d, n),
            times(zero(), whole.at(total - 1, column(layer, h, d))),
        ) == blend(layer, all, whole, h, d, n));
    }
}

/// Later keys and values change nothing of what a query gathers, wherever what is out
/// of reach gets no weight and values without weight add nothing.
pub proof fn later_rows_change_nothing<T: Scalar>(
    layer: AttentionView<T>,
    q: TensorView<T>,
    p: TensorView<T>,
    keys: TensorView<T>,
    values: TensorView<T>,
    whole_keys: TensorView<T>,
    whole_values: TensorView<T>,
    later: TensorView<T>,
    start: int,
    h: int,
    i: int,
    d: int,
)
    requires
        0 <= d < layer.head_dim,
        values.shape[0] == keys.shape[0],
        whole_keys.shape[0] == keys.shape[0] + later.shape[0],
        start + i < keys.shape[0],
        forall|e: int|
            0 <= e < layer.head_dim ==> #[trigger] rope::at3(q, i, h, e) == rope::at3(p, i, h, e),
        forall|j: int, e: int|
            0 <= j < keys.shape[0] && 0 <= e < layer.head_dim ==> keys.at(
                j,
                #[trigger] column(layer, h, e),
            ) == #[trigger] whole_keys.at(j, column(layer, h, e)),
        forall|j: int|
            0 <= j < keys.shape[0] ==> values.at(j, column(layer, h, d))
                == #[trigger] whole_values.at(j, column(layer, h, d)),
        forall|j: int|
            keys.shape[0] <= j < whole_keys.shape[0] ==> #[trigger] whole_values.at(
                j,
                column(layer, h, d),
            ) == later.at(j - keys.shape[0], column(layer, h, d)),
        out_of_reach_is_nothing(scores(layer, p, keys, start, h, i)),
        later_values_are_nothing(
            layer,
            gathered_number(layer, p, keys, values, start, h, i, d),
            later,
            h,
            d,
        ),
    ensures
        gathered_number(layer, q, whole_keys, whole_values, start, h, i, d) == gathered_number(
            layer,
            p,
            keys,
            values,
            start,
            h,
            i,
            d,
        ),
{
    let n = keys.shape[0] as int;
    let total = whole_keys.shape[0] as int;
    let lane = scores(layer, p, keys, start, h, i);
    let all = scores(layer, q, whole_keys, start, h, i);
    assert forall|j: int| 0 <= j < all.len() implies #[trigger] all[j] == (if j < lane.len() {
        lane[j]
    } else {
        lowest()
    }) by {
        if j < n {
            assert forall|e: int| 0 <= e < layer.head_dim implies whole_keys.at(
                j,
                #[trigger] column(layer, h, e),
            ) == keys.at(j, column(layer, h, e)) by {
                assert(whole_keys.at(j, column(layer, h, e)) == keys.at(j, column(layer, h, e)));
            }
            lemma_same_fit(layer, q, i, whole_keys, p, i, keys, h, j, layer.head_dim as int);
        }
    }
    lemma_shares_of_extended(lane, all);
    let (w, v) = (softmax::soft_lane(lane), softmax::soft_lane(all));
    assert forall|j: int| 0 <= j < n implies #[trigger] w[j] == v[j] by {
        assert(v[j] == w[j]);
    }
    lemma_blend_of_extended(layer, w, values, v, whole_values, h, d, n);
    assert forall|j: int| n <= j < total implies plus(
        blend(layer, v, whole_values, h, d, n),
        times(zero(), #[trigger] whole_values.at(j, column(layer, h, d))),
    ) == blend(layer, v, whole_values, h, d, n) by {
        assert(whole_values.at(j, column(layer, h, d)) == later.at(
            j - n,
            column(layer, h, d),
        ));
    }
    lemma_blend_of_nothing(layer, v, whole_values, h, d, n, total);
}

/// How well the query of row `i` fits key `j`, for head `h`: the sum, from the first
/// dimension on, of its numbers times those of the key head that its group of query heads
/// shares.
pub open spec fn agreement<T: Scalar>(
    layer: AttentionView<T>,
    q: TensorView<T>,
    keys: TensorView<T>,
    h: int,
    i: int,
    j: int,
) -> T {
    let group = layer.num_heads as int / layer.num_kv_heads as int;
    softmax::total(
        Seq::new(
            layer.head_dim as nat,
            |d: int| times(rope::at3(q, i, h, d), keys.at(j, h / group * layer.head_dim + d)),
        ),
    )
}

proof fn lemma_fit_is_a_total<T: Scalar>(
    layer: AttentionView<T>,
    q: TensorView<T>,
    keys: TensorView<T>,
    h: int,
    i: int,
    j: int,
    n: nat,
)
    ensures
        fit(layer, q, keys, h, i, j, n as int) == softmax::total(
            Seq::new(
                n,
                |d: int| times(rope::at3(q, i, h, d), keys.at(j, column(layer, h, d))),
            ),
        ),
    decreases n,
{
    let s = Seq::new(n, |d: int| times(rope::at3(q, i, h, d), keys.at(j, column(layer, h, d))));
    if n > 0 {
        lemma_fit_is_a_total(layer, q, keys, h, i, j, (n - 1) as nat);
        assert(s.drop_last() =~= Seq::new(
            (n - 1) as nat,
            |d: int| times(rope::at3(q, i, h, d), keys.at(j, column(layer, h, d))),
        ));
    }
}

proof fn lemma_score<T: Scalar>(
    layer: AttentionView<T>,
    q: TensorView<T>,
    keys: TensorView<T>,
    start_pos: int,
    h: int,
    i: int,
    j: int,
)
    requires
        layer.wf(),
        0 <= j < keys.shape[0],
        j <= start_pos + i,
    ensures
        layer.kv_groups() as int == layer.num_heads as int / layer.num_kv_heads as int,
        scores(layer, q, keys, start_pos, h, i)[j] == times(
            agreement(layer, q, keys, h, i, j),
            over(one(), sqrt(from_count(layer.head_dim as u64))),
        ),
{
    lemma_fit_is_a_total(layer, q, keys, h, i, j, layer.head_dim as nat);
    crate::attention::lemma_groups(layer.num_heads as int, layer.num_kv_heads as int);
    let group = layer.num_heads as int / layer.num_kv_heads as int;
    assert(Seq::new(
        layer.head_dim as nat,
        |d: int| times(rope::at3(q, i, h, d), keys.at(j, column(layer, h, d))),
    ) =~= Seq::new(
        layer.head_dim as nat,
        |d: int| times(rope::at3(q, i, h, d), keys.at(j, h / group * layer.head_dim + d)),
    ));
}

/// A query weighs the keys within its reach by how well they fit: the ratio of two
/// weights is e to the difference of the two sums of products, each over the root of the
/// size of a head, wherever a common divisor and a common shift cancel.
pub proof fn weights_follow_the_products<T: Scalar>(
    layer: AttentionView<T>,
    q: TensorView<T>,
    keys: TensorView<T>,
    total: int,
    start_pos: int,
    h: int,
    i: int,
    j: int,
    l: int,
)
    requires
        layer.wf(),
        q.wf(),
        q.shape == seq![q.shape[0], layer.num_heads, layer.head_dim],
        holds_keys(layer, keys, total),
        0 <= h < layer.num_heads,
        0 <= i < q.shape[0],
        0 <= j < total,
        0 <= l < total,
        j <= start_pos + i,
        l <= start_pos + i,
        ({
            let lane = scores(layer, q, keys, start_pos, h, i);
            softmax::total(softmax::shifted_exps(lane, softmax::lane_max(lane))) != zero::<T>()
        }),
        forall|a: T, b: T, s: T|
            s != zero::<T>() ==> #[trigger] over(over(a, s), over(b, s)) == over(a, b),
        forall|a: T, b: T, m: T| #[trigger] minus(minus(a, m), minus(b, m)) == minus(a, b),
        forall|a: T, b: T| #[trigger] over(exp(a), exp(b)) == exp(minus(a, b)),
    ensures
        ({
            let w = layer.attention_weights(q, keys, start_pos);
            let root = over(one(), sqrt(from_count(layer.head_dim as u64)));
            over(rope::at3(w, h, i, j), rope::at3(w, h, i, l)) == exp(
                minus(
                    times(agreement(layer, q, keys, h, i, j), root),
                    times(agreement(layer, q, keys, h, i, l), root),
                ),
            )
        }),
{
    let lane = scores(layer, q, keys, start_pos, h, i);
    lemma_weights(layer, q, keys, total, start_pos, h, i);
    lemma_score(layer, q, keys, start_pos, h, i, j);
    lemma_score(layer, q, keys, start_pos, h, i, l);
    softmax::ratio_of_shares(lane, j, l);
}

/// The only key there is gets all the weight: its value is what is gathered, for each
/// query head that of the value head that its group shares, wherever a number less itself
/// is zero, e to that is one, and one is neutral.
pub proof fn only_key_gets_all_the_weight<T: Scalar>(
    layer: AttentionView<T>,
    q: TensorView<T>,
    keys: TensorView<T>,
    values: TensorView<T>,
    start_pos: int,
    h: int,
    i: int,
    d: int,
)
    requires
        layer.wf(),
        q.wf(),
        q.shape == seq![q.shape[0], layer.num_heads, layer.head_dim],
        holds_keys(layer, keys, 1),
        holds_keys(layer, values, 1),
        0 <= start_pos,
        0 <= h < layer.num_heads,
        0 <= i < q.shape[0],
        0 <= d < layer.head_dim,
        layer.q_dim() <= usize::MAX,
        ({
            let root = over(one(), sqrt(from_count(layer.head_dim as u64)));
            let s = times(agreement(layer, q, keys, h, i, 0), root);
            less_than(lowest(), s) && minus(s, s) == zero::<T>()
        }),
        exp(zero::<T>()) == one::<T>(),
        plus(zero::<T>(), one()) == one::<T>(),
        over(one::<T>(), one()) == one::<T>(),
        ({
            let group = layer.num_heads as int / layer.num_kv_heads as int;
            let v = values.at(0, h / group * layer.head_dim + d);
            plus(zero(), times(one(), v)) == v
        }),
    ensures
        ({
            let group = layer.num_heads as int / layer.num_kv_heads as int;
            layer.gathered(q, keys, values, start_pos).at(i, h * layer.head_dim + d) == values.at(
                0,
                h / group * layer.head_dim + d,
            )
        }),
{
    let lane = scores(layer, q, keys, start_pos, h, i);
    lemma_gathered(layer, q, keys, values, 1, start_pos, h, i, d);
    lemma_score(layer, q, keys, start_pos, h, i, 0);
    let s = lane[0];
    assert(lane.len() == 1);
    assert(lane.drop_last() =~= Seq::empty());
    assert(softmax::lane_max(Seq::<T>::empty()) == lowest::<T>());
    assert(softmax::lane_max(lane) == s);
    let e = softmax::shifted_exps(lane, s);
    assert(e.drop_last() =~= Seq::empty());
    assert(e[0] == one::<T>());
    assert(softmax::total(Seq::<T>::empty()) == zero::<T>());
    assert(softmax::total(e) == one::<T>());
    let w = softmax::soft_lane(lane);
    assert(w[0] == one::<T>());
    assert(blend(layer, w, values, h, d, 0) == zero::<T>());
    assert(blend(layer, w, values, h, d, 1) == plus(
        blend(layer, w, values, h, d, 0),
        times(w[0], values.at(0, column(layer, h, d))),
    ));
}

/// What attention gathers for the rows of `x`, before the last projection.
pub open spec fn gathered_for<T: Scalar>(
    layer: AttentionView<T>,
    x: TensorView<T>,
    start_pos: int,
    cache: KVCacheView<T>,
) -> TensorView<T> {
    let next = layer.next_cache(x, start_pos, cache);
    layer.gathered(
        layer.queries(x, start_pos),
        next.key_cache->0,
        next.value_cache->0,
        start_pos,
    )
}

/// What is gathered is a matter of the queries, keys and values alone: layers that differ
/// in the last projection gather the same.
pub proof fn gathering_knows_no_last_projection<T: Scalar>(
    layer: AttentionView<T>,
    other: AttentionView<T>,
    x: TensorView<T>,
    start_pos: int,
    cache: KVCacheView<T>,
)
    requires
        other == (AttentionView { o_proj: other.o_proj, ..layer }),
    ensures
        gathered_for(layer, x, start_pos, cache) == gathered_for(other, x, start_pos, cache),
{
}

/// The last projection comes last: a layer gives what the last projection makes of what
/// the same layer gives with the identity in its place, wherever sums over a row select
/// its elements.
pub proof fn last_projection_comes_last<T: Scalar>(
    layer: AttentionView<T>,
    plain: AttentionView<T>,
    x: TensorView<T>,
    start_pos: int,
    cache: KVCacheView<T>,
)
    requires
        plain == (AttentionView { o_proj: plain.o_proj, ..layer }),
        matrix::is_identity(plain.o_proj),
        plain.o_proj.shape[0] == layer.q_dim(),
        gathered_for(layer, x, start_pos, cache).wf(),
        matrix::rows_select(gathered_for(layer, x, start_pos, cache)),
    ensures
        plain.output(x, start_pos, cache) == gathered_for(layer, x, start_pos, cache),
        layer.output(x, start_pos, cache) == ffn::linear(
            plain.output(x, start_pos, cache),
            layer.o_proj,
        ),
{
    let g = gathered_for(layer, x, start_pos, cache);
    assert(g.shape[1] == layer.q_dim());
    ffn::linear_by_the_identity(g, plain.o_proj);
}

/// The products of queries and keys are divided by the root of the size of a head:
/// multiplying the factor by that root gives one, wherever multiplying undoes dividing.
pub proof fn scale_undone<T: Scalar>(layer: AttentionView<T>)
    requires
        ({
            let root = sqrt(from_count::<T>(layer.head_dim as u64));
            times(over(one(), root), root) == one::<T>()
        }),
    ensures
        times(layer.scale(), sqrt(from_count(layer.head_dim as u64))) == one::<T>(),
{
}

/// A layer gives the last projection of what it gathers, with its queries, from the keys
/// and values in the cache and those of the rows themselves.
pub proof fn layers_project_what_they_gather<T: Scalar>(
    layer: AttentionView<T>,
    x: TensorView<T>,
    start_pos: int,
    cache: KVCacheView<T>,
    keys: TensorView<T>,
    values: TensorView<T>,
)
    requires
        cache.key_cache matches Some(k) ==> keys == matrix::stacked(k, layer.keys(x, start_pos)),
        cache.key_cache is None ==> keys == layer.keys(x, start_pos),
        cache.value_cache matches Some(v) ==> values == matrix::stacked(v, layer.values(x)),
        cache.value_cache is None ==> values == layer.values(x),
    ensures
        layer.output(x, start_pos, cache) == ffn::linear(
            layer.gathered(layer.queries(x, start_pos), keys, values, start_pos),
            layer.o_proj,
        ),
{
}

} // verus!
