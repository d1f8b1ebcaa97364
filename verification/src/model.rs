//! The whole model: embedding, transformer blocks, normalization and the output
//! projection.
use crate::attention::{KVCache, KVCacheView};
use crate::config::ModelConfig;
use crate::ffn;
use crate::index::{lemma_cell, product_fits};
use crate::passes;
use crate::rmsnorm::{RMSNorm, RMSNormView};
use crate::scalar::{functional, Scalar};
use crate::tensor::{lemma_matrix_wf, matrix, Tensor, TensorView};
use crate::transformer_block::{TransformerBlock, TransformerBlockView};
use vstd::prelude::*;

verus! {

/// What a model holds.
#[verifier::ext_equal]
pub struct QwenModelView<T> {
    pub embed_tokens: TensorView<T>,
    pub layers: Seq<TransformerBlockView<T>>,
    pub norm: RMSNormView<T>,
    pub lm_head: TensorView<T>,
    pub vocab_size: usize,
    pub hidden_size: usize,
    pub kv_caches: Seq<KVCacheView<T>>,
}

impl<T: Scalar> QwenModelView<T> {
    /// Whether the parts fit together: the tables and every layer have the hidden
    /// size, and every layer has a cache that fits it.
    pub open spec fn wf(self) -> bool {
        &&& self.embed_tokens.wf()
        &&& self.embed_tokens.ndim() == 2
        &&& self.embed_tokens.shape[1] == self.hidden_size
        &&& self.norm.wf()
        &&& self.norm.size() == self.hidden_size
        &&& self.lm_head.wf()
        &&& self.lm_head.ndim() == 2
        &&& self.lm_head.shape[1] == self.hidden_size
        &&& self.kv_caches.len() == self.layers.len()
        &&& forall|k: int|
            0 <= k < self.layers.len() ==> (#[trigger] self.layers[k]).wf()
                && self.layers[k].weights_fit(self.hidden_size as int)
                && self.kv_caches[k].wf(self.layers[k].self_attn.kv_dim())
    }

    /// Whether the weights fit together, whatever is in the caches.
    pub open spec fn weights_wf(self) -> bool {
        &&& self.norm.size() == self.hidden_size
        &&& self.lm_head.ndim() == 2
        &&& forall|k: int|
            0 <= k < self.layers.len() ==> (#[trigger] self.layers[k]).wf()
                && self.layers[k].weights_fit(self.hidden_size as int)
    }

    /// Whether the model can take `seq_len` tokens at positions from `start_pos`
    /// on: every layer has angles for them, and what is computed can be stored.
    pub open spec fn accepts(self, seq_len: int, start_pos: int) -> bool {
        &&& self.wf()
        &&& seq_len > 0
        &&& seq_len * self.hidden_size <= usize::MAX
        &&& seq_len * self.lm_head.shape[0] <= usize::MAX
        &&& forall|k: int|
            0 <= k < self.layers.len() ==> (#[trigger] self.layers[k]).accepts_rows(
                seq_len,
                self.hidden_size as int,
                start_pos,
                self.kv_caches[k],
            )
    }

    /// The number of tokens that the model has seen: the positions in the cache of
    /// its first layer.
    pub open spec fn cached(self) -> int {
        if self.kv_caches.len() > 0 {
            self.kv_caches[0].rows()
        } else {
            0
        }
    }

    /// Whether the model has room for `seq_len` tokens after those that it has seen,
    /// and then for `more` tokens one by one.
    pub open spec fn has_room(self, seq_len: int, more: int) -> bool {
        &&& self.cached() + seq_len + more <= usize::MAX
        &&& seq_len * self.hidden_size <= usize::MAX
        &&& seq_len * self.lm_head.shape[0] <= usize::MAX
        &&& forall|k: int|
            0 <= k < self.layers.len() ==> (#[trigger] self.layers[k]).has_room(
                seq_len,
                self.cached(),
                self.kv_caches[k].rows(),
                more,
            )
    }

    /// Whether every token has a row in the embedding table.
    pub open spec fn knows(self, ids: Seq<usize>) -> bool {
        forall|i: int| 0 <= i < ids.len() ==> #[trigger] ids[i] < self.embed_tokens.shape[0]
    }

    /// The rows of the tokens in the embedding table.
    pub open spec fn embedded(self, ids: Seq<usize>) -> TensorView<T> {
        matrix(
            ids.len() as usize,
            self.hidden_size,
            |i: int, j: int| self.embed_tokens.at(ids[i] as int, j),
        )
    }

    /// The rows after the first `k` layers.
    pub open spec fn hidden_after(self, ids: Seq<usize>, start_pos: int, k: int) -> TensorView<T>
        decreases k,
    {
        if k <= 0 {
            self.embedded(ids)
        } else {
            self.layers[k - 1].output(
                self.hidden_after(ids, start_pos, k - 1),
                start_pos,
                self.kv_caches[k - 1],
            )
        }
    }

    /// The logits: for each token a row with a number for every token that could
    /// come next.
    pub open spec fn logits(self, ids: Seq<usize>, start_pos: int) -> TensorView<T> {
        ffn::linear(
            self.norm.output(self.hidden_after(ids, start_pos, self.layers.len() as int)),
            self.lm_head,
        )
    }

    /// The cache of layer `k` once the tokens have been seen.
    pub open spec fn next_cache(self, ids: Seq<usize>, start_pos: int, k: int) -> KVCacheView<T> {
        self.layers[k].next_cache(
            self.hidden_after(ids, start_pos, k),
            start_pos,
            self.kv_caches[k],
        )
    }

    /// The model once the tokens have been seen.
    pub open spec fn after(self, ids: Seq<usize>, start_pos: int) -> QwenModelView<T> {
        QwenModelView {
            kv_caches: Seq::new(
                self.layers.len(),
                |k: int| self.next_cache(ids, start_pos, k),
            ),
            ..self
        }
    }

    /// The model as it was before it saw anything.
    pub open spec fn fresh(self) -> QwenModelView<T> {
        QwenModelView {
            kv_caches: Seq::new(self.kv_caches.len(), |k: int| KVCacheView::empty()),
            ..self
        }
    }

    /// Whether `other` differs from this model in the caches alone.
    pub open spec fn same_weights(self, other: QwenModelView<T>) -> bool {
        QwenModelView { kv_caches: self.kv_caches, ..other } == self
    }
}

/// The views of a list of layers.
pub open spec fn layer_views<T: Scalar>(layers: Seq<TransformerBlock<T>>) -> Seq<
    TransformerBlockView<T>,
> {
    Seq::new(layers.len(), |k: int| layers[k]@)
}

/// The views of a list of caches.
pub open spec fn cache_views<T>(caches: Seq<KVCache<T>>) -> Seq<KVCacheView<T>> {
    Seq::new(caches.len(), |k: int| caches[k]@)
}

/// A model.
pub struct QwenModel<T: Scalar> {
    embed_tokens: Tensor<T>,
    layers: Vec<TransformerBlock<T>>,
    norm: RMSNorm<T>,
    lm_head: Tensor<T>,
    config: ModelConfig<T>,
    kv_caches: Vec<KVCache<T>>,
}

impl<T: Scalar> View for QwenModel<T> {
    type V = QwenModelView<T>;

    closed spec fn view(&self) -> QwenModelView<T> {
        QwenModelView {
            embed_tokens: self.embed_tokens@,
            layers: layer_views(self.layers@),
            norm: self.norm@,
            lm_head: self.lm_head@,
            vocab_size: self.config.vocab_size,
            hidden_size: self.config.hidden_size,
            kv_caches: cache_views(self.kv_caches@),
        }
    }
}

impl<T: Scalar> QwenModel<T> {
    /// A model of the given parts, with an empty cache for every layer.
    pub fn new(
        embed_tokens: Tensor<T>,
        layers: Vec<TransformerBlock<T>>,
        norm: RMSNorm<T>,
        lm_head: Tensor<T>,
        config: ModelConfig<T>,
    ) -> (r: Self)
        requires
            layers@.len() == config.num_hidden_layers,
        ensures
            r@ == (QwenModelView {
                embed_tokens: embed_tokens@,
                layers: layer_views(layers@),
                norm: norm@,
                lm_head: lm_head@,
                vocab_size: config.vocab_size,
                hidden_size: config.hidden_size,
                kv_caches: Seq::new(layers@.len(), |k: int| KVCacheView::<T>::empty()),
            }),
    {
        let mut kv_caches: Vec<KVCache<T>> = Vec::new();
        let mut i: usize = 0;
        while i < layers.len()
            invariant
                i <= layers@.len(),
                kv_caches@.len() == i,
                forall|k: int|
                    0 <= k < i ==> (#[trigger] kv_caches@[k])@ == KVCacheView::<T>::empty(),
            decreases layers@.len() - i,
        {
            kv_caches.push(KVCache::new());
            i = i + 1;
        }
        assert(cache_views(kv_caches@) =~= Seq::new(
            layers@.len(),
            |k: int| KVCacheView::<T>::empty(),
        ));
        QwenModel { embed_tokens, layers, norm, lm_head, config, kv_caches }
    }

    fn embed(&self, token_ids: &[usize]) -> (r: Tensor<T>)
        requires
            self@.wf(),
            self@.knows(token_ids@),
            token_ids@.len() * self@.hidden_size <= usize::MAX,
        ensures
            r@.wf(),
            r@ == self@.embedded(token_ids@),
    {
        let s: usize = token_ids.len();
        let n: usize = self.config.hidden_size;
        let table = self.embed_tokens.data();
        let rows: usize = self.embed_tokens.shape()[0];
        let ghost ids = token_ids@;
        let ghost f = |i: int, j: int| self@.embed_tokens.at(ids[i] as int, j);
        proof {
            lemma_matrix_wf(self@.embed_tokens);
            assert(0 * n == 0);
        }
        let mut data: Vec<T> = Vec::with_capacity(s * n);
        let mut i: usize = 0;
        while i < s
            invariant
                i <= s,
                s == token_ids@.len(),
                ids == token_ids@,
                self@.knows(ids),
                s * n <= usize::MAX,
                table@ == self@.embed_tokens.data,
                self@.embed_tokens.is_matrix(rows as int, n as int),
                f == (|i: int, j: int| self@.embed_tokens.at(ids[i] as int, j)),
                data@.len() == i * n,
                forall|p: int|
                    0 <= p < data@.len() ==> #[trigger] data@[p] == f(p / n as int, p % n as int),
            decreases s - i,
        {
            let id: usize = token_ids[i];
            assert(ids[i as int] < rows);
            let mut j: usize = 0;
            while j < n
                invariant
                    i < s,
                    j <= n,
                    id == ids[i as int],
                    id < rows,
                    s * n <= usize::MAX,
                    table@ == self@.embed_tokens.data,
                    self@.embed_tokens.is_matrix(rows as int, n as int),
                    f == (|i: int, j: int| self@.embed_tokens.at(ids[i] as int, j)),
                    data@.len() == i * n + j,
                    forall|p: int|
                        0 <= p < data@.len() ==> #[trigger] data@[p] == f(
                            p / n as int,
                            p % n as int,
                        ),
                decreases n - j,
            {
                let len: usize = table.len();
                proof {
                    lemma_cell(i as int, j as int, s as int, n as int);
                    lemma_cell(id as int, j as int, rows as int, n as int);
                }
                data.push(table[id * n + j]);
                j = j + 1;
            }
            assert((i + 1) * n == i * n + n) by (nonlinear_arith);
            i = i + 1;
        }
        let shape: Vec<usize> = vec![s, n];
        proof {
            assert(shape@ =~= seq![s, n]);
            assert(data@ =~= matrix(s, n, f).data);
            lemma_matrix_wf(matrix(s, n, f));
        }
        Tensor::new(shape, data)
    }

    /// Passes tokens, which stand at positions from `start_pos` on, through the
    /// model, and adds their keys and values to the caches.
    pub fn forward(&mut self, token_ids: &[usize], start_pos: usize) -> (r: Tensor<T>)
        requires
            old(self)@.accepts(token_ids@.len() as int, start_pos as int),
            old(self)@.knows(token_ids@),
        ensures
            r@.wf(),
            r@.is_matrix(token_ids@.len() as int, old(self)@.lm_head.shape[0] as int),
            final(self)@.wf(),
            old(self)@.same_weights(final(self)@),
            forall|k: int|
                0 <= k < old(self)@.layers.len() ==> (#[trigger] final(self)@.kv_caches[k]).rows()
                    == old(self)@.kv_caches[k].rows() + token_ids@.len(),
            functional::<T>() ==> r@ == old(self)@.logits(token_ids@, start_pos as int),
            functional::<T>() ==> final(self)@ == old(self)@.after(token_ids@, start_pos as int),
    {
        let s: usize = token_ids.len();
        let ghost before = self@;
        let ghost ids = token_ids@;
        let mut hidden = self.embed(token_ids);
        let n: usize = self.layers.len();
        let mut k: usize = 0;
        while k < n
            invariant
                k <= n,
                n == before.layers.len(),
                s == ids.len(),
                before.accepts(s as int, start_pos as int),
                before.same_weights(self@),
                self@.wf(),
                self.config == old(self).config,
                hidden@.wf(),
                hidden@.shape == seq![s, before.hidden_size],
                functional::<T>() ==> hidden@ == before.hidden_after(
                    ids,
                    start_pos as int,
                    k as int,
                ),
                forall|i: int|
                    k <= i < n ==> #[trigger] self@.kv_caches[i] == before.kv_caches[i],
                forall|i: int|
                    0 <= i < k ==> (#[trigger] self@.kv_caches[i]).rows()
                        == before.kv_caches[i].rows() + s,
                functional::<T>() ==> forall|i: int|
                    0 <= i < k ==> #[trigger] self@.kv_caches[i] == before.next_cache(
                        ids,
                        start_pos as int,
                        i,
                    ),
            decreases n - k,
        {
            let ghost earlier = self@;
            assert(before.layers[k as int].accepts_rows(
                s as int,
                before.hidden_size as int,
                start_pos as int,
                before.kv_caches[k as int],
            ));
            assert(earlier.layers[k as int] == self.layers@[k as int]@);
            assert(earlier.kv_caches[k as int] == self.kv_caches@[k as int]@);
            hidden = self.layers[k].forward(&hidden, start_pos, &mut self.kv_caches[k]);
            proof {
                assert(self@.layers =~= earlier.layers);
                assert forall|i: int| 0 <= i < n && i != k implies #[trigger] self@.kv_caches[i]
                    == earlier.kv_caches[i] by {}
                assert(self@.kv_caches.len() == n);
                assert(earlier.layers[k as int].weights_fit(before.hidden_size as int));
            }
            k = k + 1;
        }
        let normed = self.norm.forward(&hidden);
        let logits = normed.matmul(&self.lm_head.transpose_2d());
        proof {
            if functional::<T>() {
                assert(self@.kv_caches =~= before.after(ids, start_pos as int).kv_caches);
            }
        }
        logits
    }

    /// The number of tokens that the model has seen.
    pub fn cached(&self) -> (r: usize)
        requires
            self@.wf(),
        ensures
            r == self@.cached(),
    {
        if self.kv_caches.len() > 0 {
            assert(self@.layers[0].wf());
            assert(self@.kv_caches[0] == self.kv_caches@[0]@);
            self.kv_caches[0].rows()
        } else {
            0
        }
    }

    /// Whether there is room for `seq_len` tokens after those that the model has seen,
    /// and then for `more` tokens one by one.
    pub fn has_room(&self, seq_len: usize, more: usize) -> (r: bool)
        requires
            self@.wf(),
        ensures
            r == self@.has_room(seq_len as int, more as int),
    {
        let h: usize = self.config.hidden_size;
        let v: usize = self.lm_head.shape()[0];
        proof {
            assert(seq_len * h * 1 == seq_len * h && seq_len * v * 1 == seq_len * v)
                by (nonlinear_arith);
        }
        let start: usize = self.cached();
        match seq_len.checked_add(more) {
            Some(n) => {
                if start.checked_add(n).is_none() {
                    return false;
                }
            },
            None => {
                return false;
            },
        }
        if !product_fits(seq_len, h, 1) || !product_fits(seq_len, v, 1) {
            return false;
        }
        let n: usize = self.layers.len();
        let mut k: usize = 0;
        while k < n
            invariant
                k <= n,
                n == self@.layers.len(),
                self@.wf(),
                start == self@.cached(),
                forall|i: int|
                    0 <= i < k ==> (#[trigger] self@.layers[i]).has_room(
                        seq_len as int,
                        start as int,
                        self@.kv_caches[i].rows(),
                        more as int,
                    ),
            decreases n - k,
        {
            assert(self@.layers[k as int] == self.layers@[k as int]@);
            assert(self@.kv_caches[k as int] == self.kv_caches@[k as int]@);
            if !self.layers[k].has_room(seq_len, start, self.kv_caches[k].rows(), more) {
                return false;
            }
            k = k + 1;
        }
        true
    }

    /// Whether the model can take `seq_len` tokens at positions from `start_pos` on.
    pub fn accepts(&self, seq_len: usize, start_pos: usize) -> (r: bool)
        requires
            self@.wf(),
        ensures
            r == self@.accepts(seq_len as int, start_pos as int),
    {
        let h: usize = self.config.hidden_size;
        let v: usize = self.lm_head.shape()[0];
        proof {
            assert(seq_len * h * 1 == seq_len * h && seq_len * v * 1 == seq_len * v)
                by (nonlinear_arith);
        }
        if seq_len == 0 || !product_fits(seq_len, h, 1) || !product_fits(seq_len, v, 1) {
            return false;
        }
        let n: usize = self.layers.len();
        let mut k: usize = 0;
        while k < n
            invariant
                k <= n,
                n == self@.layers.len(),
                self@.wf(),
                forall|i: int|
                    0 <= i < k ==> (#[trigger] self@.layers[i]).accepts_rows(
                        seq_len as int,
                        self@.hidden_size as int,
                        start_pos as int,
                        self@.kv_caches[i],
                    ),
            decreases n - k,
        {
            assert(self@.layers[k as int] == self.layers@[k as int]@);
            assert(self@.kv_caches[k as int] == self.kv_caches@[k as int]@);
            if !self.layers[k].takes(seq_len, start_pos, self.kv_caches[k].rows()) {
                assert(!self@.layers[k as int].accepts_rows(
                    seq_len as int,
                    self@.hidden_size as int,
                    start_pos as int,
                    self@.kv_caches[k as int],
                ));
                return false;
            }
            k = k + 1;
        }
        true
    }

    /// Whether every token has a row in the embedding table.
    pub fn knows(&self, token_ids: &[usize]) -> (r: bool)
        requires
            self@.wf(),
        ensures
            r == self@.knows(token_ids@),
    {
        let rows: usize = self.embed_tokens.shape()[0];
        let mut i: usize = 0;
        while i < token_ids.len()
            invariant
                i <= token_ids@.len(),
                rows == self@.embed_tokens.shape[0],
                forall|k: int| 0 <= k < i ==> #[trigger] token_ids@[k] < rows,
            decreases token_ids@.len() - i,
        {
            if token_ids[i] >= rows {
                return false;
            }
            i = i + 1;
        }
        true
    }

    /// Whether every token that the model has a logit for has a row in the embedding
    /// table.
    pub fn knows_what_it_gives(&self) -> (r: bool)
        requires
            self@.wf(),
        ensures
            r == (self@.lm_head.shape[0] <= self@.embed_tokens.shape[0]),
    {
        self.lm_head.shape()[0] <= self.embed_tokens.shape()[0]
    }

    /// Empties every cache.
    pub fn reset_caches(&mut self)
        ensures
            final(self)@ == old(self)@.fresh(),
    {
        let ghost before = self@;
        let n: usize = self.kv_caches.len();
        let mut k: usize = 0;
        while k < n
            invariant
                k <= n,
                n == self.kv_caches@.len(),
                n == before.kv_caches.len(),
                before.same_weights(self@),
                forall|i: int|
                    0 <= i < k ==> #[trigger] self@.kv_caches[i] == KVCacheView::<T>::empty(),
            decreases n - k,
        {
            let ghost earlier = self@.kv_caches;
            let unused: KVCache<T> = KVCache::new();
            self.kv_caches.set(k, unused);
            assert(self@.kv_caches =~= earlier.update(k as int, KVCacheView::empty()));
            k = k + 1;
        }
        assert(self@.kv_caches =~= before.fresh().kv_caches);
    }

    /// The number of tokens, as the configuration gives it.
    pub fn vocab_size(&self) -> (r: usize)
        ensures
            r == self@.vocab_size,
    {
        self.config.vocab_size
    }

    /// The caches, one for every layer.
    pub fn kv_caches(&self) -> (r: &[KVCache<T>])
        ensures
            cache_views(r@) == self@.kv_caches,
    {
        self.kv_caches.as_slice()
    }

    /// The output projection, for changing it in place.
    pub fn lm_head_mut(&mut self) -> (r: &mut Tensor<T>)
        ensures
            r@ == old(self)@.lm_head,
            final(self)@ == (QwenModelView { lm_head: final(r)@, ..old(self)@ }),
    {
        &mut self.lm_head
    }
}

/// Room for tokens is room to take them, and to take the next ones one by one.
pub proof fn lemma_room<T: Scalar>(
    before: QwenModelView<T>,
    now: QwenModelView<T>,
    seq_len: int,
    more: int,
    taken: int,
)
    requires
        before.wf(),
        seq_len > 0,
        more >= 0,
        before.has_room(seq_len, more),
    ensures
        before.accepts(seq_len, before.cached()),
        0 <= taken < more && now.wf() && before.same_weights(now) && (forall|k: int|
            0 <= k < before.layers.len() ==> (#[trigger] now.kv_caches[k]).rows()
                == before.kv_caches[k].rows() + seq_len + taken) ==> now.accepts(
            1,
            before.cached() + seq_len + taken,
        ),
{
    assert forall|k: int| 0 <= k < before.layers.len() implies (
    #[trigger] before.layers[k]).accepts_rows(
        seq_len,
        before.hidden_size as int,
        before.cached(),
        before.kv_caches[k],
    ) by {
        assert(before.layers[k].has_room(
            seq_len,
            before.cached(),
            before.kv_caches[k].rows(),
            more,
        ));
    }
    if 0 <= taken < more && now.wf() && before.same_weights(now) && (forall|k: int|
        0 <= k < before.layers.len() ==> (#[trigger] now.kv_caches[k]).rows()
            == before.kv_caches[k].rows() + seq_len + taken) {
        assert forall|k: int| 0 <= k < now.layers.len() implies (
        #[trigger] now.layers[k]).accepts_rows(
            1,
            now.hidden_size as int,
            before.cached() + seq_len + taken,
            now.kv_caches[k],
        ) by {
            assert(before.layers[k].has_room(
                seq_len,
                before.cached(),
                before.kv_caches[k].rows(),
                more,
            ));
            assert(before.kv_caches[k].rows() >= 0);
            crate::attention::lemma_fewer_fit(
                before.layers[k].self_attn,
                1,
                now.kv_caches[k].rows() + 1,
                before.kv_caches[k].rows() + seq_len + more,
            );
        }
    }
}

/// Room grows by one step at a time: where `seq_len` tokens and then `taken` more
/// had room, and the next one is accepted, there is room for one more.
pub proof fn lemma_more_room<T: Scalar>(
    before: QwenModelView<T>,
    now: QwenModelView<T>,
    seq_len: int,
    taken: int,
)
    requires
        before.wf(),
        before.same_weights(now),
        before.has_room(seq_len, taken),
        now.accepts(1, before.cached() + seq_len + taken),
        before.cached() + seq_len + taken < usize::MAX,
        forall|k: int|
            0 <= k < before.layers.len() ==> (#[trigger] now.kv_caches[k]).rows()
                == before.kv_caches[k].rows() + seq_len + taken,
    ensures
        before.has_room(seq_len, taken + 1),
{
    assert forall|k: int| 0 <= k < before.layers.len() implies (
    #[trigger] before.layers[k]).has_room(
        seq_len,
        before.cached(),
        before.kv_caches[k].rows(),
        taken + 1,
    ) by {
        assert(before.layers[k].has_room(
            seq_len,
            before.cached(),
            before.kv_caches[k].rows(),
            taken,
        ));
        assert(now.layers[k].accepts_rows(
            1,
            now.hidden_size as int,
            before.cached() + seq_len + taken,
            now.kv_caches[k],
        ));
    }
}

/// Where there is room for `more` tokens, there is room for fewer.
pub proof fn lemma_less_room<T: Scalar>(
    m: QwenModelView<T>,
    seq_len: int,
    fewer: int,
    more: int,
)
    requires
        m.wf(),
        0 <= seq_len,
        0 <= fewer <= more,
        m.has_room(seq_len, more),
    ensures
        m.has_room(seq_len, fewer),
{
    assert forall|k: int| 0 <= k < m.layers.len() implies (#[trigger] m.layers[k]).has_room(
        seq_len,
        m.cached(),
        m.kv_caches[k].rows(),
        fewer,
    ) by {
        let rows = m.kv_caches[k].rows();
        assert(m.layers[k].has_room(seq_len, m.cached(), rows, more));
        crate::attention::lemma_fewer_fit(
            m.layers[k].self_attn,
            1,
            rows + seq_len + fewer,
            rows + seq_len + more,
        );
    }
}

/// What a model accepts at the start, it has room for.
pub proof fn lemma_first_room<T: Scalar>(before: QwenModelView<T>, seq_len: int)
    requires
        before.accepts(seq_len, before.cached()),
        before.cached() + seq_len <= usize::MAX,
    ensures
        before.has_room(seq_len, 0),
{
    assert forall|k: int| 0 <= k < before.layers.len() implies (
    #[trigger] before.layers[k]).has_room(
        seq_len,
        before.cached(),
        before.kv_caches[k].rows(),
        0,
    ) by {
        let layer = before.layers[k];
        assert(layer.accepts_rows(
            seq_len,
            before.hidden_size as int,
            before.cached(),
            before.kv_caches[k],
        ));
        let (n, total) = (layer.self_attn.num_heads as int, before.kv_caches[k].rows() + seq_len);
        assert(n * 1 * total <= n * seq_len * total) by (nonlinear_arith)
            requires
                n >= 0,
                seq_len >= 1,
                total >= 0,
        ;
    }
}

/// Emptying the caches brings back the model that had seen nothing: what it was
/// given before has no effect on what it computes next.
pub proof fn resetting_forgets<T: Scalar>(m: QwenModelView<T>, ids: Seq<usize>, start_pos: int)
    requires
        m.kv_caches.len() == m.layers.len(),
    ensures
        m.after(ids, start_pos).fresh() == m.fresh(),
{
    assert(m.after(ids, start_pos).fresh() =~= m.fresh());
}

/// A model that is emptied has seen nothing: every cache is empty, and its weights are what
/// they were.
pub proof fn emptied_models_have_seen_nothing<T: Scalar>(m: QwenModelView<T>, k: int)
    requires
        0 <= k < m.kv_caches.len(),
    ensures
        m.fresh().kv_caches.len() == m.kv_caches.len(),
        m.fresh().kv_caches[k].key_cache is None,
        m.fresh().kv_caches[k].value_cache is None,
        m.fresh().cached() == 0,
        m.fresh().layers == m.layers,
        m.fresh().embed_tokens == m.embed_tokens,
        m.fresh().norm == m.norm,
        m.fresh().lm_head == m.lm_head,
{
}

/// The number of tokens seen grows by those that are passed through the model, where it has
/// a layer.
pub proof fn seen_tokens_are_counted<T: Scalar>(m: QwenModelView<T>, ids: Seq<usize>)
    requires
        m.wf(),
        m.layers.len() > 0,
        m.cached() + ids.len() <= usize::MAX,
    ensures
        m.after(ids, m.cached()).cached() == m.cached() + ids.len(),
{
    passes::seen_tokens_are_cached(m, ids, m.cached(), 0);
}

} // verus!
