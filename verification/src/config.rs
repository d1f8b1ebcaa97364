//! The hyperparameters of a model.
use crate::scalar::{functional, narrow, Scalar};
use vstd::prelude::*;

verus! {

/// The hyperparameters of a model, as its configuration file gives them.
#[derive(Debug, Clone)]
pub struct ModelConfig<T: Scalar> {
    /// The number of tokens.
    pub vocab_size: usize,
    /// The width of the rows that run through the model.
    pub hidden_size: usize,
    /// The number of transformer blocks.
    pub num_hidden_layers: usize,
    /// The number of query heads.
    pub num_attention_heads: usize,
    /// The number of key and value heads.
    pub num_key_value_heads: usize,
    /// The width of the rows inside a feed-forward network.
    pub intermediate_size: usize,
    /// The number of positions that the model has angles for.
    pub max_position_embeddings: usize,
    /// The constant that keeps the divisor of a normalization from being zero.
    pub rms_norm_eps: T::Wide,
    /// The base of the frequencies of the position embedding.
    pub rope_theta: T::Wide,
    /// The name of the activation function.
    pub hidden_act: String,
    /// Whether the output projection is the embedding table.
    pub tie_word_embeddings: bool,
    /// The dimension of a head, where the file gives it.
    pub head_dim: Option<usize>,
}

impl<T: Scalar> ModelConfig<T> {
    /// The dimension of a head: the one given, or else an equal share of the
    /// hidden size.
    pub open spec fn spec_head_dim(&self) -> usize {
        match self.head_dim {
            Some(d) => d,
            None => (self.hidden_size as int / self.num_attention_heads as int) as usize,
        }
    }

    /// The dimension of a head.
    pub fn head_dim(&self) -> (r: usize)
        requires
            self.head_dim is Some || self.num_attention_heads > 0,
        ensures
            r == self.spec_head_dim(),
    {
        match self.head_dim {
            Some(d) => d,
            None => self.hidden_size / self.num_attention_heads,
        }
    }

    /// `rms_norm_eps` in the precision of the tensors.
    pub fn eps_f32(&self) -> (r: T)
        ensures
            functional::<T>() ==> r == narrow::<T>(self.rms_norm_eps),
    {
        narrow(self.rms_norm_eps)
    }

    /// `rope_theta` in the precision of the tensors.
    pub fn rope_theta_f32(&self) -> (r: T)
        ensures
            functional::<T>() ==> r == narrow::<T>(self.rope_theta),
    {
        narrow(self.rope_theta)
    }
}

/// Where no size is given, the heads share the hidden size evenly.
pub proof fn heads_share_the_hidden_size<T: Scalar>(c: ModelConfig<T>)
    requires
        c.head_dim is None,
        c.num_attention_heads > 0,
        c.hidden_size as int % c.num_attention_heads as int == 0,
    ensures
        c.num_attention_heads * c.spec_head_dim() == c.hidden_size,
{
    let (h, n) = (c.hidden_size as int, c.num_attention_heads as int);
    vstd::arithmetic::div_mod::lemma_fundamental_div_mod(h, n);
    assert(0 <= h / n <= h) by (nonlinear_arith)
        requires
            h >= 0,
            n >= 1,
    ;
}

} // verus!
