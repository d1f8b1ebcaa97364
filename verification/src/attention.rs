//! Grouped-query attention with a cache of keys and values.
use crate::ffn;
use crate::heads;
use crate::heads::{
    apply_causal_mask, apply_per_head_norm, batch_matmul_attn_v, batch_matmul_qk, expand_kv_heads,
    transpose_heads, untranspose_heads,
};
use crate::index::product_fits;
use crate::matrix;
use crate::pointwise;
use crate::rmsnorm;
use crate::rmsnorm::RMSNorm;
use crate::rope;
use crate::rope::{apply_rope, lemma_cube_volume, precompute_freqs};
use crate::scalar::{from_count, functional, one, over, sqrt, Scalar};
use crate::softmax;
use crate::tensor::{lemma_matrix_wf, volume, Tensor, TensorView};
use vstd::prelude::*;

verus! {

/// The keys and values of the positions seen so far, one row for each.
#[verifier::ext_equal]
pub struct KVCacheView<T> {
    pub key_cache: Option<TensorView<T>>,
    pub value_cache: Option<TensorView<T>>,
}

impl<T> KVCacheView<T> {
    /// A cache that has seen nothing.
    pub open spec fn empty() -> Self {
        KVCacheView { key_cache: None, value_cache: None }
    }

    /// Whether keys and values are both there, in rows of width `kv_dim` and in
    /// equal number, or both absent.
    pub open spec fn wf(self, kv_dim: int) -> bool {
        match (self.key_cache, self.value_cache) {
            (None, None) => true,
            (Some(k), Some(v)) => {
                &&& k.wf()
                &&& v.wf()
                &&& k.ndim() == 2
                &&& v.ndim() == 2
                &&& k.shape[1] == kv_dim
                &&& v.shape[1] == kv_dim
                &&& k.shape[0] == v.shape[0]
            },
            _ => false,
        }
    }

    /// The number of positions in the cache.
    pub open spec fn rows(self) -> int {
        match self.key_cache {
            Some(k) => k.shape[0] as int,
            None => 0,
        }
    }
}

/// A step further on needs less room than the last one: what fits at `total`
/// positions fits at fewer.
pub proof fn lemma_fewer_fit<T: Scalar>(t: AttentionView<T>, seq_len: int, fewer: int, total: int)
    requires
        0 <= fewer <= total,
        0 <= seq_len,
        t.sizes_fit(seq_len, total),
    ensures
        t.sizes_fit(seq_len, fewer),
{
    let (n, k, d) = (t.num_heads as int, t.num_kv_heads as int, t.head_dim as int);
    assert(fewer * n <= total * n && fewer * n * d <= total * n * d) by (nonlinear_arith)
        requires
            0 <= fewer <= total,
            n >= 0,
            d >= 0,
    ;
    assert(fewer * k <= total * k && fewer * k * d <= total * k * d) by (nonlinear_arith)
        requires
            0 <= fewer <= total,
            k >= 0,
            d >= 0,
    ;
    assert(n * seq_len * fewer <= n * seq_len * total) by (nonlinear_arith)
        requires
            0 <= fewer <= total,
            n >= 0,
            seq_len >= 0,
    ;
}

/// The keys and values of the positions seen so far.
pub struct KVCache<T> {
    pub key_cache: Option<Tensor<T>>,
    pub value_cache: Option<Tensor<T>>,
}

/// The view of a tensor that may be absent.
pub open spec fn view_of<T>(t: Option<Tensor<T>>) -> Option<TensorView<T>> {
    match t {
        Some(t) => Some(t@),
        None => None,
    }
}

impl<T> View for KVCache<T> {
    type V = KVCacheView<T>;

    open spec fn view(&self) -> KVCacheView<T> {
        KVCacheView {
            key_cache: view_of(self.key_cache),
            value_cache: view_of(self.value_cache),
        }
    }
}

impl<T> KVCache<T> {
    /// A cache that has seen nothing.
    pub fn new() -> (r: Self)
        ensures
            r@ == KVCacheView::<T>::empty(),
    {
        KVCache { key_cache: None, value_cache: None }
    }

    /// Forgets everything.
    pub fn clear(&mut self)
        ensures
            final(self)@ == KVCacheView::<T>::empty(),
    {
        self.key_cache = None;
        self.value_cache = None;
    }
}

impl<T: Copy> KVCache<T> {
    /// The number of positions in the cache.
    pub fn rows(&self) -> (r: usize)
        requires
            self@.key_cache matches Some(k) ==> k.ndim() > 0,
        ensures
            r == self@.rows(),
    {
        match &self.key_cache {
            Some(k) => k.shape()[0],
            None => 0,
        }
    }
}

impl<T> Default for KVCache<T> {
    fn default() -> (r: Self)
        ensures
            r@ == KVCacheView::<T>::empty(),
    {
        Self::new()
    }
}

/// What an attention layer holds.
#[verifier::ext_equal]
pub struct AttentionView<T> {
    pub q_proj: TensorView<T>,
    pub k_proj: TensorView<T>,
    pub v_proj: TensorView<T>,
    pub o_proj: TensorView<T>,
    pub q_norm: Option<rmsnorm::RMSNormView<T>>,
    pub k_norm: Option<rmsnorm::RMSNormView<T>>,
    pub num_heads: usize,
    pub num_kv_heads: usize,
    pub head_dim: usize,
    pub cos_table: TensorView<T>,
    pub sin_table: TensorView<T>,
}

/// Rows of `fresh` after the rows of `cached`.
pub open spec fn appended<T>(cached: Option<TensorView<T>>, fresh: TensorView<T>) -> TensorView<T> {
    match cached {
        Some(t) => matrix::stacked(t, fresh),
        None => fresh,
    }
}

/// Heads normalized where there is a norm.
pub open spec fn maybe_normalized<T: Scalar>(
    x: TensorView<T>,
    norm: Option<rmsnorm::RMSNormView<T>>,
) -> TensorView<T> {
    match norm {
        Some(n) => heads::heads_normalized(x, n),
        None => x,
    }
}

impl<T: Scalar> AttentionView<T> {
    /// How many query heads share a key head.
    pub open spec fn kv_groups(self) -> usize {
        (self.num_heads as int / self.num_kv_heads as int) as usize
    }

    /// The width of the queries of a position.
    pub open spec fn q_dim(self) -> int {
        self.num_heads * self.head_dim
    }

    /// The width of the keys of a position.
    pub open spec fn kv_dim(self) -> int {
        self.num_kv_heads * self.head_dim
    }

    /// The number of positions that the layer has angles for.
    pub open spec fn max_positions(self) -> int {
        self.cos_table.shape[0] as int
    }

    /// Whether the query heads divide into groups, one for each key head, and the
    /// tables have an angle for each pair of dimensions.
    pub open spec fn wf(self) -> bool {
        &&& self.num_kv_heads > 0
        &&& self.num_heads as int % self.num_kv_heads as int == 0
        &&& self.head_dim % 2 == 0
        &&& self.cos_table.wf()
        &&& self.sin_table.wf()
        &&& self.cos_table.is_matrix(self.max_positions(), self.head_dim as int / 2)
        &&& self.sin_table.is_matrix(self.max_positions(), self.head_dim as int / 2)
    }

    /// Whether the weights fit rows of width `hidden`.
    pub open spec fn weights_fit(self, hidden: int) -> bool {
        &&& self.q_proj.wf()
        &&& self.k_proj.wf()
        &&& self.v_proj.wf()
        &&& self.o_proj.wf()
        &&& self.q_proj.is_matrix(self.q_dim(), hidden)
        &&& self.k_proj.is_matrix(self.kv_dim(), hidden)
        &&& self.v_proj.is_matrix(self.kv_dim(), hidden)
        &&& self.o_proj.is_matrix(hidden, self.q_dim())
        &&& self.q_norm matches Some(n) ==> n.wf() && n.size() == self.head_dim
        &&& self.k_norm matches Some(n) ==> n.wf() && n.size() == self.head_dim
    }

    /// Whether everything that is computed for `seq_len` new positions out of
    /// `total` can be stored.
    pub open spec fn sizes_fit(self, seq_len: int, total: int) -> bool {
        &&& total <= usize::MAX
        &&& total * self.num_heads <= usize::MAX
        &&& total * self.num_heads * self.head_dim <= usize::MAX
        &&& total * self.num_kv_heads <= usize::MAX
        &&& total * self.num_kv_heads * self.head_dim <= usize::MAX
        &&& self.num_heads * seq_len * total <= usize::MAX
    }

    /// Whether the layer has angles for `seq_len` positions from `start_pos` on, and
    /// what is computed for them after the `rows` that its cache holds can be stored.
    pub open spec fn takes(self, seq_len: int, start_pos: int, rows: int) -> bool {
        &&& start_pos + seq_len <= self.max_positions()
        &&& self.sizes_fit(seq_len, rows + seq_len)
    }

    /// Whether the layer can take `seq_len` rows of width `hidden`, at positions
    /// from `start_pos` on, with this cache.
    pub open spec fn accepts_rows(
        self,
        seq_len: int,
        hidden: int,
        start_pos: int,
        cache: KVCacheView<T>,
    ) -> bool {
        &&& self.weights_fit(hidden)
        &&& cache.wf(self.kv_dim())
        &&& self.takes(seq_len, start_pos, cache.rows())
    }

    /// Whether the layer can take the rows of `x`, at positions from `start_pos`
    /// on, with this cache.
    pub open spec fn accepts(
        self,
        x: TensorView<T>,
        start_pos: int,
        cache: KVCacheView<T>,
    ) -> bool {
        &&& x.wf()
        &&& x.ndim() == 2
        &&& self.accepts_rows(x.shape[0] as int, x.shape[1] as int, start_pos, cache)
    }

    /// Whether the layer has room for `seq_len` rows after the `rows` that its cache
    /// holds, at positions from `start_pos` on, and then for `more` rows one by one.
    pub open spec fn has_room(self, seq_len: int, start_pos: int, rows: int, more: int) -> bool {
        &&& start_pos + seq_len + more <= self.max_positions()
        &&& self.sizes_fit(seq_len, rows + seq_len)
        &&& self.sizes_fit(1, rows + seq_len + more)
    }

    /// The cosines of the positions of `x`.
    pub open spec fn cos_rows(self, start_pos: int, seq_len: int) -> TensorView<T> {
        matrix::rows_of(self.cos_table, start_pos, start_pos + seq_len)
    }

    /// The sines of the positions of `x`.
    pub open spec fn sin_rows(self, start_pos: int, seq_len: int) -> TensorView<T> {
        matrix::rows_of(self.sin_table, start_pos, start_pos + seq_len)
    }

    /// The queries of the rows of `x`, by position and head.
    pub open spec fn queries(self, x: TensorView<T>, start_pos: int) -> TensorView<T> {
        let s = x.shape[0];
        let split = heads::reshaped(
            ffn::linear(x, self.q_proj),
            seq![s, self.num_heads, self.head_dim],
        );
        rope::rotated(
            maybe_normalized(split, self.q_norm),
            self.cos_rows(start_pos, s as int),
            self.sin_rows(start_pos, s as int),
        )
    }

    /// The keys of the rows of `x`, one row for each.
    pub open spec fn keys(self, x: TensorView<T>, start_pos: int) -> TensorView<T> {
        let s = x.shape[0];
        let split = heads::reshaped(
            ffn::linear(x, self.k_proj),
            seq![s, self.num_kv_heads, self.head_dim],
        );
        heads::reshaped(
            rope::rotated(
                maybe_normalized(split, self.k_norm),
                self.cos_rows(start_pos, s as int),
                self.sin_rows(start_pos, s as int),
            ),
            seq![s, self.kv_dim() as usize],
        )
    }

    /// The values of the rows of `x`, one row for each.
    pub open spec fn values(self, x: TensorView<T>) -> TensorView<T> {
        ffn::linear(x, self.v_proj)
    }

    /// The cache once the rows of `x` have been seen: their keys and values come
    /// after those that were there.
    pub open spec fn next_cache(
        self,
        x: TensorView<T>,
        start_pos: int,
        cache: KVCacheView<T>,
    ) -> KVCacheView<T> {
        KVCacheView {
            key_cache: Some(appended(cache.key_cache, self.keys(x, start_pos))),
            value_cache: Some(appended(cache.value_cache, self.values(x))),
        }
    }

    /// One of the cached matrices by position and head, each head repeated for the
    /// query heads that share it.
    pub open spec fn shared(self, rows: TensorView<T>) -> TensorView<T> {
        heads::expanded(
            heads::reshaped(rows, seq![rows.shape[0], self.num_kv_heads, self.head_dim]),
            self.kv_groups(),
        )
    }

    /// What the products of queries and keys are multiplied by.
    pub open spec fn scale(self) -> T {
        over(one(), sqrt(from_count(self.head_dim as u64)))
    }

    /// The weights that the queries give to the keys.
    pub open spec fn attention_weights(
        self,
        q: TensorView<T>,
        keys: TensorView<T>,
        start_pos: int,
    ) -> TensorView<T> {
        softmax::softmaxed(
            heads::masked(
                pointwise::scaled(
                    heads::fits(heads::swapped(q), heads::swapped(self.shared(keys))),
                    self.scale(),
                ),
                start_pos,
            ),
            2,
        )
    }

    /// What the queries gather from the values, one row for each position.
    pub open spec fn gathered(
        self,
        q: TensorView<T>,
        keys: TensorView<T>,
        values: TensorView<T>,
        start_pos: int,
    ) -> TensorView<T> {
        heads::reshaped(
            heads::swapped(
                heads::weighted(
                    self.attention_weights(q, keys, start_pos),
                    heads::swapped(self.shared(values)),
                ),
            ),
            seq![q.shape[0], self.q_dim() as usize],
        )
    }

    /// What the layer makes of the rows of `x`.
    pub open spec fn output(
        self,
        x: TensorView<T>,
        start_pos: int,
        cache: KVCacheView<T>,
    ) -> TensorView<T> {
        let next = self.next_cache(x, start_pos, cache);
        ffn::linear(
            self.gathered(
                self.queries(x, start_pos),
                next.key_cache->0,
                next.value_cache->0,
                start_pos,
            ),
            self.o_proj,
        )
    }
}

/// An attention layer.
pub struct Attention<T> {
    q_proj: Tensor<T>,
    k_proj: Tensor<T>,
    v_proj: Tensor<T>,
    o_proj: Tensor<T>,
    q_norm: Option<RMSNorm<T>>,
    k_norm: Option<RMSNorm<T>>,
    num_heads: usize,
    num_kv_heads: usize,
    head_dim: usize,
    cos_table: Tensor<T>,
    sin_table: Tensor<T>,
}

/// The view of a norm that may be absent.
pub open spec fn norm_view<T>(norm: Option<RMSNorm<T>>) -> Option<rmsnorm::RMSNormView<T>> {
    match norm {
        Some(n) => Some(n@),
        None => None,
    }
}

impl<T: Scalar> View for Attention<T> {
    type V = AttentionView<T>;

    closed spec fn view(&self) -> AttentionView<T> {
        AttentionView {
            q_proj: self.q_proj@,
            k_proj: self.k_proj@,
            v_proj: self.v_proj@,
            o_proj: self.o_proj@,
            q_norm: norm_view(self.q_norm),
            k_norm: norm_view(self.k_norm),
            num_heads: self.num_heads,
            num_kv_heads: self.num_kv_heads,
            head_dim: self.head_dim,
            cos_table: self.cos_table@,
            sin_table: self.sin_table@,
        }
    }
}

pub(crate) proof fn lemma_groups(heads: int, kv: int)
    requires
        kv > 0,
        heads >= 0,
        heads % kv == 0,
    ensures
        kv * (heads / kv) == heads,
        0 <= heads / kv <= heads,
{
    vstd::arithmetic::div_mod::lemma_fundamental_div_mod(heads, kv);
    assert(0 <= heads / kv <= heads) by (nonlinear_arith)
        requires
            kv * (heads / kv) == heads,
            kv > 0,
            heads >= 0,
    ;
}

proof fn lemma_cube_and_matrix(shape: Seq<usize>)
    requires
        shape.len() == 3,
    ensures
        volume(shape) == shape[0] * (shape[1] * shape[2]),
        volume(shape) == shape[0] * shape[1] * shape[2],
{
    lemma_cube_volume(shape);
    let (a, b, c) = (shape[0] as int, shape[1] as int, shape[2] as int);
    assert(a * b * c == a * (b * c)) by (nonlinear_arith);
}

impl<T: Scalar> Attention<T> {
    /// The fixed parts of a layer's view.
    pub open spec fn made_of(
        self,
        q_proj: TensorView<T>,
        k_proj: TensorView<T>,
        v_proj: TensorView<T>,
        o_proj: TensorView<T>,
        q_norm: Option<rmsnorm::RMSNormView<T>>,
        k_norm: Option<rmsnorm::RMSNormView<T>>,
        num_heads: usize,
        num_kv_heads: usize,
        head_dim: usize,
    ) -> bool {
        &&& self@.q_proj == q_proj
        &&& self@.k_proj == k_proj
        &&& self@.v_proj == v_proj
        &&& self@.o_proj == o_proj
        &&& self@.q_norm == q_norm
        &&& self@.k_norm == k_norm
        &&& self@.num_heads == num_heads
        &&& self@.num_kv_heads == num_kv_heads
        &&& self@.head_dim == head_dim
    }

    /// A layer with the given weights, with angles for `max_seq_len` positions.
    pub fn new(
        q_proj: Tensor<T>,
        k_proj: Tensor<T>,
        v_proj: Tensor<T>,
        o_proj: Tensor<T>,
        q_norm: Option<RMSNorm<T>>,
        k_norm: Option<RMSNorm<T>>,
        num_heads: usize,
        num_kv_heads: usize,
        head_dim: usize,
        max_seq_len: usize,
        rope_theta: T,
    ) -> (r: Self)
        requires
            num_kv_heads > 0,
            num_heads as int % num_kv_heads as int == 0,
            head_dim % 2 == 0,
            max_seq_len * (head_dim / 2) <= usize::MAX,
        ensures
            r@.wf(),
            r.made_of(
                q_proj@,
                k_proj@,
                v_proj@,
                o_proj@,
                norm_view(q_norm),
                norm_view(k_norm),
                num_heads,
                num_kv_heads,
                head_dim,
            ),
            r@.max_positions() == max_seq_len,
            functional::<T>() ==> r@.cos_table == rope::cos_table_of(
                head_dim,
                max_seq_len,
                rope_theta,
            ),
            functional::<T>() ==> r@.sin_table == rope::sin_table_of(
                head_dim,
                max_seq_len,
                rope_theta,
            ),
    {
        let (cos_table, sin_table) = precompute_freqs(head_dim, max_seq_len, rope_theta);
        Attention {
            q_proj,
            k_proj,
            v_proj,
            o_proj,
            q_norm,
            k_norm,
            num_heads,
            num_kv_heads,
            head_dim,
            cos_table,
            sin_table,
        }
    }

    fn sizes_fit(&self, seq_len: usize, total: usize) -> (r: bool)
        ensures
            r == self@.sizes_fit(seq_len as int, total as int),
    {
        proof {
            let (t, n, k) = (total as int, self.num_heads as int, self.num_kv_heads as int);
            assert(t * n * 1 == t * n && t * k * 1 == t * k) by (nonlinear_arith);
        }
        product_fits(total, self.num_heads, 1) && product_fits(total, self.num_heads, self.head_dim)
            && product_fits(total, self.num_kv_heads, 1) && product_fits(
            total,
            self.num_kv_heads,
            self.head_dim,
        ) && product_fits(self.num_heads, seq_len, total)
    }

    /// Whether `seq_len` rows can come after the `rows` that the cache holds, at
    /// positions from `start_pos` on.
    pub fn takes(&self, seq_len: usize, start_pos: usize, rows: usize) -> (r: bool)
        requires
            self@.wf(),
        ensures
            r == self@.takes(seq_len as int, start_pos as int, rows as int),
    {
        match (start_pos.checked_add(seq_len), rows.checked_add(seq_len)) {
            (Some(end), Some(total)) => end <= self.cos_table.shape()[0] && self.sizes_fit(
                seq_len,
                total,
            ),
            _ => false,
        }
    }

    /// Whether there is room for `seq_len` rows after the `rows` that the cache
    /// holds, at positions from `start_pos` on, and then for `more` rows one by one.
    pub fn has_room(&self, seq_len: usize, start_pos: usize, rows: usize, more: usize) -> (r: bool)
        requires
            self@.wf(),
        ensures
            r == self@.has_room(seq_len as int, start_pos as int, rows as int, more as int),
    {
        let end: usize = match seq_len.checked_add(more) {
            Some(end) => end,
            None => return false,
        };
        let positions: usize = match start_pos.checked_add(end) {
            Some(positions) => positions,
            None => return false,
        };
        if positions > self.cos_table.shape()[0] {
            return false;
        }
        let all: usize = match rows.checked_add(end) {
            Some(all) => all,
            None => return false,
        };
        self.sizes_fit(seq_len, rows + seq_len) && self.sizes_fit(1, all)
    }

    fn project(&self, x: &Tensor<T>, weight: &Tensor<T>, heads: usize) -> (r: Tensor<T>)
        requires
            x@.wf(),
            x@.ndim() == 2,
            weight@.wf(),
            weight@.is_matrix(heads * self@.head_dim, x@.shape[1] as int),
            x@.shape[0] * (heads * self@.head_dim) <= usize::MAX,
        ensures
            r@.wf(),
            r@.shape == seq![x@.shape[0], heads, self@.head_dim],
            functional::<T>() ==> r@ == heads::reshaped(
                ffn::linear(x@, weight@),
                seq![x@.shape[0], heads, self@.head_dim],
            ),
    {
        let s: usize = x.shape()[0];
        let flat = x.matmul(&weight.transpose_2d());
        let shape: Vec<usize> = vec![s, heads, self.head_dim];
        proof {
            assert(shape@ =~= seq![s, heads, self@.head_dim]);
            lemma_cube_and_matrix(shape@);
        }
        flat.reshape(shape)
    }

    fn turn(
        &self,
        x: &Tensor<T>,
        norm: &Option<RMSNorm<T>>,
        cos_rows: &Tensor<T>,
        sin_rows: &Tensor<T>,
    ) -> (r: Tensor<T>)
        requires
            x@.wf(),
            rope::tables_fit(x@, cos_rows@, sin_rows@),
            x@.shape[0] * x@.shape[1] <= usize::MAX,
            norm_view(*norm) matches Some(n) ==> n.wf() && n.size() == x@.shape[2],
        ensures
            r@.wf(),
            r@.shape == x@.shape,
            functional::<T>() ==> r@ == rope::rotated(
                maybe_normalized(x@, norm_view(*norm)),
                cos_rows@,
                sin_rows@,
            ),
    {
        match norm {
            Some(n) => {
                let normed = apply_per_head_norm(x, n);
                apply_rope(&normed, cos_rows, sin_rows)
            },
            None => apply_rope(x, cos_rows, sin_rows),
        }
    }

    fn share(&self, rows: &Tensor<T>) -> (r: Tensor<T>)
        requires
            self@.wf(),
            rows@.wf(),
            rows@.ndim() == 2,
            rows@.shape[1] == self@.kv_dim(),
            rows@.shape[0] * self@.num_heads * self@.head_dim <= usize::MAX,
        ensures
            r@.wf(),
            r@ == self@.shared(rows@),
            r@.shape == seq![rows@.shape[0], self@.num_heads, self@.head_dim],
    {
        let t: usize = rows.shape()[0];
        let shape: Vec<usize> = vec![t, self.num_kv_heads, self.head_dim];
        proof {
            assert(shape@ =~= seq![t, self.num_kv_heads, self.head_dim]);
            lemma_cube_and_matrix(shape@);
            lemma_matrix_wf(rows@);
            lemma_groups(self.num_heads as int, self.num_kv_heads as int);
        }
        let split = rows.reshape(shape);
        let kv_groups: usize = self.num_heads / self.num_kv_heads;
        expand_kv_heads(&split, kv_groups)
    }

    fn attend(
        &self,
        q: &Tensor<T>,
        keys: &Tensor<T>,
        values: &Tensor<T>,
        start_pos: usize,
    ) -> (r: Tensor<T>)
        requires
            self@.wf(),
            q@.wf(),
            q@.shape == seq![q@.shape[0], self@.num_heads, self@.head_dim],
            keys@.wf(),
            values@.wf(),
            keys@.ndim() == 2,
            values@.ndim() == 2,
            keys@.shape[1] == self@.kv_dim(),
            values@.shape[1] == self@.kv_dim(),
            keys@.shape[0] == values@.shape[0],
            self@.q_dim() <= usize::MAX,
            start_pos + q@.shape[0] <= usize::MAX,
            self@.sizes_fit(q@.shape[0] as int, keys@.shape[0] as int),
        ensures
            r@.wf(),
            r@.is_matrix(q@.shape[0] as int, self@.q_dim()),
            functional::<T>() ==> r@ == self@.gathered(q@, keys@, values@, start_pos as int),
    {
        let s: usize = q.shape()[0];
        let t: usize = keys.shape()[0];
        let shared_keys = self.share(keys);
        let shared_values = self.share(values);
        let q_by_head = transpose_heads(q);
        let k_by_head = transpose_heads(&shared_keys);
        let scores = batch_matmul_qk(&q_by_head, &k_by_head);
        let scale: T = over(one(), sqrt(from_count(self.head_dim as u64)));
        let scaled = scores.mul_scalar(scale);
        let masked = apply_causal_mask(scaled, start_pos, s, t);
        let weights = masked.softmax(2);
        let v_by_head = transpose_heads(&shared_values);
        proof {
            lemma_cube_and_matrix(q@.shape);
            let (a, b, c) = (self.num_heads as int, s as int, self.head_dim as int);
            assert(a * b * c == b * a * c) by (nonlinear_arith);
        }
        let len: usize = q.len();
        let out = batch_matmul_attn_v(&weights, &v_by_head);
        let by_position = untranspose_heads(&out);
        let width: usize = self.num_heads * self.head_dim;
        let shape: Vec<usize> = vec![s, width];
        proof {
            assert(shape@ =~= seq![s, width]);
            lemma_cube_and_matrix(by_position@.shape);
            lemma_matrix_wf(TensorView { shape: shape@, data: by_position@.data });
        }
        by_position.reshape(shape)
    }

    /// Passes the rows of `x`, which stand at positions from `start_pos` on,
    /// through the layer, and adds their keys and values to the cache.
    pub fn forward(&self, x: &Tensor<T>, start_pos: usize, kv_cache: &mut KVCache<T>) -> (r: Tensor<
        T,
    >)
        requires
            self@.wf(),
            self@.accepts(x@, start_pos as int, old(kv_cache)@),
        ensures
            r@.wf(),
            r@.shape == x@.shape,
            final(kv_cache)@.wf(self@.kv_dim()),
            final(kv_cache)@.key_cache is Some,
            final(kv_cache)@.rows() == old(kv_cache)@.rows() + x@.shape[0],
            functional::<T>() ==> r@ == self@.output(x@, start_pos as int, old(kv_cache)@),
            functional::<T>() ==> final(kv_cache)@ == self@.next_cache(
                x@,
                start_pos as int,
                old(kv_cache)@,
            ),
    {
        let s: usize = x.shape()[0];
        let ghost cache = kv_cache@;
        let ghost total = cache.rows() + s;
        let ghost (nh, nkv, hd) = (
            self.num_heads as int,
            self.num_kv_heads as int,
            self.head_dim as int,
        );
        proof {
            assert(s * (nh * hd) <= total * nh * hd && s * nh <= total * nh) by (nonlinear_arith)
                requires
                    0 <= s <= total,
                    nh >= 0,
                    hd >= 0,
            ;
            assert(s * (nkv * hd) <= total * nkv * hd && s * nkv <= total * nkv)
                by (nonlinear_arith)
                requires
                    0 <= s <= total,
                    nkv >= 0,
                    hd >= 0,
            ;
        }
        let q = self.project(x, &self.q_proj, self.num_heads);
        let (k, v) = self.new_rows(x, start_pos);
        let end: usize = start_pos + s;
        let cos_rows = self.cos_table.rows(start_pos, end);
        let sin_rows = self.sin_table.rows(start_pos, end);
        proof {
            matrix::lemma_rows_at(self@.cos_table, start_pos as int, end as int);
            matrix::lemma_rows_at(self@.sin_table, start_pos as int, end as int);
        }
        let q = self.turn(&q, &self.q_norm, &cos_rows, &sin_rows);
        let full_k = append_rows(&kv_cache.key_cache, k);
        let full_v = append_rows(&kv_cache.value_cache, v);
        let gathered = self.attend(&q, &full_k, &full_v, start_pos);
        kv_cache.key_cache = Some(full_k);
        kv_cache.value_cache = Some(full_v);
        let len: usize = x.len();
        proof {
            lemma_matrix_wf(x@);
        }
        let out = gathered.matmul(&self.o_proj.transpose_2d());
        assert(out@.shape =~= x@.shape);
        out
    }

    fn new_rows(&self, x: &Tensor<T>, start_pos: usize) -> (r: (Tensor<T>, Tensor<T>))
        requires
            self@.wf(),
            x@.wf(),
            x@.ndim() == 2,
            self@.weights_fit(x@.shape[1] as int),
            start_pos + x@.shape[0] <= self@.max_positions(),
            x@.shape[0] * self@.kv_dim() <= usize::MAX,
            x@.shape[0] * self@.num_kv_heads <= usize::MAX,
        ensures
            r.0@.wf(),
            r.1@.wf(),
            r.0@.is_matrix(x@.shape[0] as int, self@.kv_dim()),
            r.1@.is_matrix(x@.shape[0] as int, self@.kv_dim()),
            functional::<T>() ==> r.0@ == self@.keys(x@, start_pos as int),
            functional::<T>() ==> r.1@ == self@.values(x@),
    {
        let s: usize = x.shape()[0];
        let k = self.project(x, &self.k_proj, self.num_kv_heads);
        let v = x.matmul(&self.v_proj.transpose_2d());
        let end: usize = start_pos + s;
        let cos_rows = self.cos_table.rows(start_pos, end);
        let sin_rows = self.sin_table.rows(start_pos, end);
        proof {
            matrix::lemma_rows_at(self@.cos_table, start_pos as int, end as int);
            matrix::lemma_rows_at(self@.sin_table, start_pos as int, end as int);
        }
        let k = self.turn(&k, &self.k_norm, &cos_rows, &sin_rows);
        let kv_dim: usize = self.k_proj.shape()[0];
        let shape: Vec<usize> = vec![s, kv_dim];
        proof {
            assert(shape@ =~= seq![s, kv_dim]);
            lemma_cube_and_matrix(k@.shape);
            lemma_matrix_wf(TensorView { shape: shape@, data: k@.data });
        }
        (k.reshape(shape), v)
    }
}

fn append_rows<T: Scalar>(cached: &Option<Tensor<T>>, fresh: Tensor<T>) -> (r: Tensor<T>)
    requires
        fresh@.wf(),
        fresh@.ndim() == 2,
        view_of(*cached) matches Some(t) ==> t.wf() && t.ndim() == 2 && t.shape[1] == fresh@.shape[1]
            && t.shape[0] + fresh@.shape[0] <= usize::MAX,
    ensures
        r@.wf(),
        r@ == appended(view_of(*cached), fresh@),
{
    match cached {
        Some(t) => t.stack_rows(&fresh),
        None => fresh,
    }
}

/// A layer takes rows wherever it has an angle for each of their positions, up to the last
/// one, and what is computed for them can be stored: the queries and keys of all positions,
/// with the heads repeated, and a weight for each head, row and position. It has room for
/// one more row where it takes one more after them.
pub proof fn layers_take_what_they_have_angles_for<T: Scalar>(
    t: AttentionView<T>,
    seq_len: int,
    start_pos: int,
    rows: int,
)
    requires
        0 <= seq_len,
        0 <= rows,
        start_pos + seq_len <= t.max_positions(),
        ({
            let total = rows + seq_len;
            let heads: int = if t.num_heads < t.num_kv_heads {
                t.num_kv_heads as int
            } else {
                t.num_heads as int
            };
            &&& total <= usize::MAX
            &&& total * heads <= usize::MAX
            &&& total * heads * t.head_dim <= usize::MAX
            &&& t.num_heads * seq_len * total <= usize::MAX
        }),
    ensures
        t.takes(seq_len, start_pos, rows),
        seq_len >= 1 ==> t.has_room(seq_len, start_pos, rows, 0),
        t.takes(seq_len, start_pos, rows) && start_pos + seq_len + 1 <= t.max_positions()
            && t.takes(1, start_pos + seq_len, rows + seq_len) ==> t.has_room(
            seq_len,
            start_pos,
            rows,
            1,
        ),
{
    let total = rows + seq_len;
    let (n, kv, d) = (t.num_heads as int, t.num_kv_heads as int, t.head_dim as int);
    let heads: int = if n < kv {
        kv
    } else {
        n
    };
    assert(total * n <= total * heads && total * kv <= total * heads) by (nonlinear_arith)
        requires
            0 <= total,
            n <= heads,
            kv <= heads,
    ;
    assert(total * n * d <= total * heads * d && total * kv * d <= total * heads * d)
        by (nonlinear_arith)
        requires
            total * n <= total * heads,
            total * kv <= total * heads,
            0 <= d,
    ;
    if seq_len >= 1 {
        assert(n * 1 * total <= n * seq_len * total) by (nonlinear_arith)
            requires
                n >= 0,
                seq_len >= 1,
                total >= 0,
        ;
    }
}

} // verus!
