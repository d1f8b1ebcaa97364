//! A transformer block: attention and a feed-forward network, each behind a
//! normalization and added to what went in.
use crate::attention;
use crate::attention::{Attention, AttentionView, KVCache, KVCacheView};
use crate::ffn::{FeedForward, FeedForwardView};
use crate::pointwise;
use crate::rmsnorm::{RMSNorm, RMSNormView};
use crate::rope;
use crate::scalar::{functional, Scalar};
use crate::tensor::{Tensor, TensorView};
use vstd::prelude::*;

verus! {

/// What a transformer block holds.
#[verifier::ext_equal]
pub struct TransformerBlockView<T> {
    pub input_layernorm: RMSNormView<T>,
    pub self_attn: AttentionView<T>,
    pub post_attention_layernorm: RMSNormView<T>,
    pub ffn: FeedForwardView<T>,
}

impl<T: Scalar> TransformerBlockView<T> {
    /// Whether each part is well formed.
    pub open spec fn wf(self) -> bool {
        &&& self.input_layernorm.wf()
        &&& self.self_attn.wf()
        &&& self.post_attention_layernorm.wf()
        &&& self.ffn.wf()
    }

    /// Whether every part fits rows of width `hidden`.
    pub open spec fn weights_fit(self, hidden: int) -> bool {
        &&& self.input_layernorm.size() == hidden
        &&& self.self_attn.weights_fit(hidden)
        &&& self.post_attention_layernorm.size() == hidden
        &&& self.ffn.hidden() == hidden
    }

    /// Whether the block can take `seq_len` rows of width `hidden`, at positions
    /// from `start_pos` on, with this cache.
    pub open spec fn accepts_rows(
        self,
        seq_len: int,
        hidden: int,
        start_pos: int,
        cache: KVCacheView<T>,
    ) -> bool {
        &&& self.weights_fit(hidden)
        &&& self.self_attn.accepts_rows(seq_len, hidden, start_pos, cache)
        &&& seq_len * self.ffn.intermediate() <= usize::MAX
    }

    /// Whether the block has room for `seq_len` rows after the `rows` that its cache
    /// holds, at positions from `start_pos` on, and then for `more` rows one by one.
    pub open spec fn has_room(self, seq_len: int, start_pos: int, rows: int, more: int) -> bool {
        &&& self.self_attn.has_room(seq_len, start_pos, rows, more)
        &&& seq_len * self.ffn.intermediate() <= usize::MAX
    }

    /// The rows after the attention: what went in, and added to it what attention
    /// makes of it once it is normalized.
    pub open spec fn attended(
        self,
        x: TensorView<T>,
        start_pos: int,
        cache: KVCacheView<T>,
    ) -> TensorView<T> {
        pointwise::sum(
            x,
            self.self_attn.output(self.input_layernorm.output(x), start_pos, cache),
        )
    }

    /// What the block makes of the rows of `x`: to the rows after the attention is
    /// added what the feed-forward network makes of them, normalized.
    pub open spec fn output(
        self,
        x: TensorView<T>,
        start_pos: int,
        cache: KVCacheView<T>,
    ) -> TensorView<T> {
        let mid = self.attended(x, start_pos, cache);
        pointwise::sum(mid, self.ffn.output(self.post_attention_layernorm.output(mid)))
    }

    /// The cache once the rows of `x` have been seen.
    pub open spec fn next_cache(
        self,
        x: TensorView<T>,
        start_pos: int,
        cache: KVCacheView<T>,
    ) -> KVCacheView<T> {
        self.self_attn.next_cache(self.input_layernorm.output(x), start_pos, cache)
    }
}

/// The weights of a transformer block.
#[verifier::ext_equal]
pub struct BlockWeights<T> {
    pub input_layernorm: TensorView<T>,
    pub post_attention_layernorm: TensorView<T>,
    pub q_proj: TensorView<T>,
    pub k_proj: TensorView<T>,
    pub v_proj: TensorView<T>,
    pub o_proj: TensorView<T>,
    pub q_norm: Option<TensorView<T>>,
    pub k_norm: Option<TensorView<T>>,
    pub gate_proj: TensorView<T>,
    pub up_proj: TensorView<T>,
    pub down_proj: TensorView<T>,
}

/// A norm with a weight that may be absent.
pub open spec fn norm_of<T>(weight: Option<TensorView<T>>, eps: T) -> Option<RMSNormView<T>> {
    match weight {
        Some(weight) => Some(RMSNormView { weight, eps }),
        None => None,
    }
}

/// Whether a block is made of these weights.
pub open spec fn block_made_of<T: Scalar>(
    block: TransformerBlockView<T>,
    w: BlockWeights<T>,
    num_heads: usize,
    num_kv_heads: usize,
    head_dim: usize,
    max_seq_len: usize,
    rope_theta: T,
    eps: T,
) -> bool {
    let a = block.self_attn;
    &&& block.input_layernorm == (RMSNormView { weight: w.input_layernorm, eps })
    &&& block.post_attention_layernorm == (RMSNormView { weight: w.post_attention_layernorm, eps })
    &&& block.ffn == (FeedForwardView {
        gate_proj: w.gate_proj,
        up_proj: w.up_proj,
        down_proj: w.down_proj,
    })
    &&& a.q_proj == w.q_proj
    &&& a.k_proj == w.k_proj
    &&& a.v_proj == w.v_proj
    &&& a.o_proj == w.o_proj
    &&& a.q_norm == norm_of(w.q_norm, eps)
    &&& a.k_norm == norm_of(w.k_norm, eps)
    &&& a.num_heads == num_heads
    &&& a.num_kv_heads == num_kv_heads
    &&& a.head_dim == head_dim
    &&& a.max_positions() == max_seq_len
    &&& functional::<T>() ==> a.cos_table == rope::cos_table_of(head_dim, max_seq_len, rope_theta)
    &&& functional::<T>() ==> a.sin_table == rope::sin_table_of(head_dim, max_seq_len, rope_theta)
}

/// A transformer block.
pub struct TransformerBlock<T> {
    input_layernorm: RMSNorm<T>,
    self_attn: Attention<T>,
    post_attention_layernorm: RMSNorm<T>,
    ffn: FeedForward<T>,
}

impl<T: Scalar> View for TransformerBlock<T> {
    type V = TransformerBlockView<T>;

    closed spec fn view(&self) -> TransformerBlockView<T> {
        TransformerBlockView {
            input_layernorm: self.input_layernorm@,
            self_attn: self.self_attn@,
            post_attention_layernorm: self.post_attention_layernorm@,
            ffn: self.ffn@,
        }
    }
}

/// Whether a weight is a vector.
pub open spec fn is_vector<T>(t: TensorView<T>) -> bool {
    t.wf() && t.ndim() == 1
}

fn maybe_norm<T: Scalar>(weight: Option<Tensor<T>>, eps: T) -> (r: Option<RMSNorm<T>>)
    requires
        attention::view_of(weight) matches Some(w) ==> is_vector(w),
    ensures
        attention::norm_view(r) == norm_of(attention::view_of(weight), eps),
{
    match weight {
        Some(w) => Some(RMSNorm::new(w, eps)),
        None => None,
    }
}

impl<T: Scalar> TransformerBlock<T> {
    /// A block with the given weights.
    pub fn new(
        input_layernorm_weight: Tensor<T>,
        post_attention_layernorm_weight: Tensor<T>,
        q_proj: Tensor<T>,
        k_proj: Tensor<T>,
        v_proj: Tensor<T>,
        o_proj: Tensor<T>,
        q_norm: Option<Tensor<T>>,
        k_norm: Option<Tensor<T>>,
        gate_proj: Tensor<T>,
        up_proj: Tensor<T>,
        down_proj: Tensor<T>,
        num_heads: usize,
        num_kv_heads: usize,
        head_dim: usize,
        max_seq_len: usize,
        rope_theta: T,
        rms_norm_eps: T,
    ) -> (r: Self)
        requires
            is_vector(input_layernorm_weight@),
            is_vector(post_attention_layernorm_weight@),
            attention::view_of(q_norm) matches Some(w) ==> is_vector(w),
            attention::view_of(k_norm) matches Some(w) ==> is_vector(w),
            (FeedForwardView {
                gate_proj: gate_proj@,
                up_proj: up_proj@,
                down_proj: down_proj@,
            }).wf(),
            num_kv_heads > 0,
            num_heads as int % num_kv_heads as int == 0,
            head_dim % 2 == 0,
            max_seq_len * (head_dim / 2) <= usize::MAX,
        ensures
            r@.wf(),
            block_made_of(
                r@,
                (BlockWeights {
                    input_layernorm: input_layernorm_weight@,
                    post_attention_layernorm: post_attention_layernorm_weight@,
                    q_proj: q_proj@,
                    k_proj: k_proj@,
                    v_proj: v_proj@,
                    o_proj: o_proj@,
                    q_norm: attention::view_of(q_norm),
                    k_norm: attention::view_of(k_norm),
                    gate_proj: gate_proj@,
                    up_proj: up_proj@,
                    down_proj: down_proj@,
                }),
                num_heads,
                num_kv_heads,
                head_dim,
                max_seq_len,
                rope_theta,
                rms_norm_eps,
            ),
    {
        let q_norm = maybe_norm(q_norm, rms_norm_eps);
        let k_norm = maybe_norm(k_norm, rms_norm_eps);
        TransformerBlock {
            input_layernorm: RMSNorm::new(input_layernorm_weight, rms_norm_eps),
            self_attn: Attention::new(
                q_proj,
                k_proj,
                v_proj,
                o_proj,
                q_norm,
                k_norm,
                num_heads,
                num_kv_heads,
                head_dim,
                max_seq_len,
                rope_theta,
            ),
            post_attention_layernorm: RMSNorm::new(post_attention_layernorm_weight, rms_norm_eps),
            ffn: FeedForward::new(gate_proj, up_proj, down_proj),
        }
    }

    /// Whether `seq_len` rows can come after the `rows` that the cache holds, at
    /// positions from `start_pos` on.
    pub fn takes(&self, seq_len: usize, start_pos: usize, rows: usize) -> (r: bool)
        requires
            self@.wf(),
        ensures
            r == (self@.self_attn.takes(seq_len as int, start_pos as int, rows as int) && seq_len
                * self@.ffn.intermediate() <= usize::MAX),
    {
        self.self_attn.takes(seq_len, start_pos, rows) && self.ffn.has_room(seq_len)
    }

    /// Whether there is room for `seq_len` rows after the `rows` that the cache
    /// holds, at positions from `start_pos` on, and then for `more` rows one by one.
    pub fn has_room(&self, seq_len: usize, start_pos: usize, rows: usize, more: usize) -> (r: bool)
        requires
            self@.wf(),
        ensures
            r == self@.has_room(seq_len as int, start_pos as int, rows as int, more as int),
    {
        self.self_attn.has_room(seq_len, start_pos, rows, more) && self.ffn.has_room(seq_len)
    }

    /// Passes the rows of `x`, which stand at positions from `start_pos` on,
    /// through the block, and adds their keys and values to the cache.
    pub fn forward(&self, x: &Tensor<T>, start_pos: usize, kv_cache: &mut KVCache<T>) -> (r: Tensor<
        T,
    >)
        requires
            self@.wf(),
            x@.wf(),
            x@.ndim() == 2,
            self@.accepts_rows(
                x@.shape[0] as int,
                x@.shape[1] as int,
                start_pos as int,
                old(kv_cache)@,
            ),
        ensures
            r@.wf(),
            r@.shape == x@.shape,
            final(kv_cache)@.wf(self@.self_attn.kv_dim()),
            final(kv_cache)@.key_cache is Some,
            final(kv_cache)@.rows() == old(kv_cache)@.rows() + x@.shape[0],
            functional::<T>() ==> r@ == self@.output(x@, start_pos as int, old(kv_cache)@),
            functional::<T>() ==> final(kv_cache)@ == self@.next_cache(
                x@,
                start_pos as int,
                old(kv_cache)@,
            ),
    {
        let x_norm = self.input_layernorm.forward(x);
        let attn_out = self.self_attn.forward(&x_norm, start_pos, kv_cache);
        let mid = x.add(&attn_out);
        let mid_norm = self.post_attention_layernorm.forward(&mid);
        let ffn_out = self.ffn.forward(&mid_norm);
        mid.add(&ffn_out)
    }
}

} // verus!
