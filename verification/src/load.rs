//! Assembling a model from named weights.
//!
//! Each weight that the model needs has a name and a shape that follow from the
//! configuration. They are looked up in a fixed order, and the first that is
//! missing or has another shape is reported.
use crate::attention;
use crate::config::ModelConfig;
use crate::model;
use crate::model::{QwenModel, QwenModelView};
use crate::rmsnorm::RMSNorm;
use crate::rope;
use crate::scalar::{functional, narrow, Scalar};
use crate::tensor::{lemma_matrix_wf, same_shape, Tensor, TensorView};
use crate::text;
use crate::text::{decimal, join3, list_text};
use crate::transformer_block;
use crate::transformer_block::{BlockWeights, TransformerBlock, TransformerBlockView};
use vstd::hash_map::StringHashMap;
use vstd::prelude::*;
use vstd::slice::slice_to_vec;

verus! {

/// A weight that a model needs, or can have.
#[verifier::ext_equal]
pub struct WeightSpec {
    pub name: Seq<char>,
    pub shape: Seq<usize>,
    pub required: bool,
}

/// What is wrong with a weight.
#[verifier::ext_equal]
pub enum Problem {
    /// It is missing.
    Missing { name: Seq<char> },
    /// It has another shape than the configuration says.
    Shape { name: Seq<char>, expected: Seq<usize>, got: Seq<usize> },
}

/// Why a model could not be assembled.
#[derive(Debug)]
pub enum LoadError {
    /// A weight is missing.
    MissingWeight(String),
    /// A weight has another shape than the configuration says.
    ShapeMismatch { name: String, expected: Vec<usize>, got: Vec<usize> },
}

impl View for LoadError {
    type V = Problem;

    open spec fn view(&self) -> Problem {
        match self {
            LoadError::MissingWeight(name) => Problem::Missing { name: name@ },
            LoadError::ShapeMismatch { name, expected, got } => Problem::Shape {
                name: name@,
                expected: expected@,
                got: got@,
            },
        }
    }
}

impl LoadError {
    /// The error in words.
    pub open spec fn message_of(p: Problem) -> Seq<char> {
        match p {
            Problem::Missing { name } => "Missing weight: "@ + name,
            Problem::Shape { name, expected, got } => "Shape mismatch for "@ + name
                + ": expected "@ + text::bracketed(expected) + ", got "@ + text::bracketed(got),
        }
    }

    /// The error in words.
    pub fn message(&self) -> (r: String)
        ensures
            r@ == Self::message_of(self@),
    {
        let mut r = String::new();
        match self {
            LoadError::MissingWeight(name) => {
                r.append("Missing weight: ");
                r.append(name.as_str());
                assert(r@ =~= Self::message_of(self@));
            },
            LoadError::ShapeMismatch { name, expected, got } => {
                r.append("Shape mismatch for ");
                r.append(name.as_str());
                r.append(": expected ");
                r.append(list_text(expected.as_slice()).as_str());
                r.append(", got ");
                r.append(list_text(got.as_slice()).as_str());
                assert(r@ =~= Self::message_of(self@));
            },
        }
        r
    }
}

/// Named weights.
pub open spec fn weights_of<T>(map: Map<Seq<char>, Tensor<T>>) -> Map<Seq<char>, TensorView<T>> {
    Map::new(|name: Seq<char>| map.contains_key(name), |name: Seq<char>| map[name]@)
}

/// Whether every weight has as many elements as its shape says.
pub open spec fn all_wf<T>(weights: Map<Seq<char>, TensorView<T>>) -> bool {
    forall|name: Seq<char>| #[trigger] weights.contains_key(name) ==> weights[name].wf()
}

/// What is wrong with one weight, if anything is.
pub open spec fn problem_with<T>(
    weights: Map<Seq<char>, TensorView<T>>,
    w: WeightSpec,
) -> Option<Problem> {
    if !weights.contains_key(w.name) {
        if w.required {
            Some(Problem::Missing { name: w.name })
        } else {
            None
        }
    } else if weights[w.name].shape != w.shape {
        Some(Problem::Shape { name: w.name, expected: w.shape, got: weights[w.name].shape })
    } else {
        None
    }
}

/// The first problem in a list of weights.
pub open spec fn first_problem<T>(
    weights: Map<Seq<char>, TensorView<T>>,
    list: Seq<WeightSpec>,
) -> Option<Problem>
    decreases list.len(),
{
    if list.len() == 0 {
        None
    } else {
        match problem_with(weights, list.first()) {
            Some(p) => Some(p),
            None => first_problem(weights, list.drop_first()),
        }
    }
}

proof fn lemma_first_problem_at<T>(
    weights: Map<Seq<char>, TensorView<T>>,
    list: Seq<WeightSpec>,
    k: int,
)
    requires
        0 <= k < list.len(),
        forall|j: int| 0 <= j < k ==> problem_with(weights, #[trigger] list[j]) is None,
    ensures
        problem_with(weights, list[k]) is Some ==> first_problem(weights, list) == problem_with(
            weights,
            list[k],
        ),
    decreases k,
{
    if k > 0 {
        assert(problem_with(weights, list[0]) is None);
        assert forall|j: int| 0 <= j < k - 1 implies problem_with(
            weights,
            #[trigger] list.drop_first()[j],
        ) is None by {
            assert(list.drop_first()[j] == list[j + 1]);
        }
        lemma_first_problem_at(weights, list.drop_first(), k - 1);
    }
}

proof fn lemma_no_problem<T>(weights: Map<Seq<char>, TensorView<T>>, list: Seq<WeightSpec>)
    requires
        forall|j: int| 0 <= j < list.len() ==> problem_with(weights, #[trigger] list[j]) is None,
    ensures
        first_problem(weights, list) is None,
    decreases list.len(),
{
    if list.len() > 0 {
        assert(problem_with(weights, list[0]) is None);
        assert forall|j: int| 0 <= j < list.drop_first().len() implies problem_with(
            weights,
            #[trigger] list.drop_first()[j],
        ) is None by {
            assert(list.drop_first()[j] == list[j + 1]);
        }
        lemma_no_problem(weights, list.drop_first());
    }
}

proof fn lemma_first_problem_add<T>(
    weights: Map<Seq<char>, TensorView<T>>,
    a: Seq<WeightSpec>,
    b: Seq<WeightSpec>,
)
    ensures
        first_problem(weights, a + b) == (match first_problem(weights, a) {
            Some(p) => Some(p),
            None => first_problem(weights, b),
        }),
    decreases a.len(),
{
    if a.len() == 0 {
        assert(a + b =~= b);
    } else {
        assert((a + b).drop_first() =~= a.drop_first() + b);
        lemma_first_problem_add(weights, a.drop_first(), b);
    }
}

/// The name of a weight of layer `i`.
pub open spec fn layer_name(i: int, part: Seq<char>) -> Seq<char> {
    "model.layers."@ + text::decimal_of(i as nat) + part
}

/// A weight of layer `i`.
pub open spec fn layer_weight(
    i: int,
    part: Seq<char>,
    shape: Seq<usize>,
    required: bool,
) -> WeightSpec {
    WeightSpec { name: layer_name(i, part), shape, required }
}

/// The width of the queries of a position.
pub open spec fn q_dim<T: Scalar>(c: ModelConfig<T>) -> usize {
    (c.num_attention_heads * c.spec_head_dim()) as usize
}

/// The width of the keys of a position.
pub open spec fn kv_dim<T: Scalar>(c: ModelConfig<T>) -> usize {
    (c.num_key_value_heads * c.spec_head_dim()) as usize
}

/// The weights of layer `i`, in the order in which they are looked up.
pub open spec fn layer_weights<T: Scalar>(c: ModelConfig<T>, i: int) -> Seq<WeightSpec> {
    let h = c.hidden_size;
    let m = c.intermediate_size;
    let d = c.spec_head_dim();
    seq![
        layer_weight(i, ".input_layernorm.weight"@, seq![h], true),
        layer_weight(i, ".self_attn.q_proj.weight"@, seq![q_dim(c), h], true),
        layer_weight(i, ".self_attn.k_proj.weight"@, seq![kv_dim(c), h], true),
        layer_weight(i, ".self_attn.v_proj.weight"@, seq![kv_dim(c), h], true),
        layer_weight(i, ".self_attn.o_proj.weight"@, seq![h, q_dim(c)], true),
        layer_weight(i, ".self_attn.q_norm.weight"@, seq![d], false),
        layer_weight(i, ".self_attn.k_norm.weight"@, seq![d], false),
        layer_weight(i, ".post_attention_layernorm.weight"@, seq![h], true),
        layer_weight(i, ".mlp.gate_proj.weight"@, seq![m, h], true),
        layer_weight(i, ".mlp.up_proj.weight"@, seq![m, h], true),
        layer_weight(i, ".mlp.down_proj.weight"@, seq![h, m], true),
    ]
}

/// The weights of the embedding and of the first `n` layers.
pub open spec fn weights_through<T: Scalar>(c: ModelConfig<T>, n: int) -> Seq<WeightSpec>
    decreases n,
{
    if n <= 0 {
        seq![
            WeightSpec {
                name: "model.embed_tokens.weight"@,
                shape: seq![c.vocab_size, c.hidden_size],
                required: true,
            },
        ]
    } else {
        weights_through(c, n - 1) + layer_weights(c, n - 1)
    }
}

/// The weights after the layers: the last normalization and, unless it is the
/// embedding table, the output projection.
pub open spec fn last_weights<T: Scalar>(c: ModelConfig<T>) -> Seq<WeightSpec> {
    let norm = WeightSpec {
        name: "model.norm.weight"@,
        shape: seq![c.hidden_size],
        required: true,
    };
    if c.tie_word_embeddings {
        seq![norm]
    } else {
        seq![
            norm,
            WeightSpec {
                name: "lm_head.weight"@,
                shape: seq![c.vocab_size, c.hidden_size],
                required: true,
            },
        ]
    }
}

/// All the weights, in the order in which they are looked up.
pub open spec fn all_weights<T: Scalar>(c: ModelConfig<T>) -> Seq<WeightSpec> {
    weights_through(c, c.num_hidden_layers as int) + last_weights(c)
}

/// A weight of layer `i`.
pub open spec fn named<T>(
    weights: Map<Seq<char>, TensorView<T>>,
    i: int,
    part: Seq<char>,
) -> TensorView<T> {
    weights[layer_name(i, part)]
}

/// A weight of layer `i` that can be absent.
pub open spec fn optional<T>(
    weights: Map<Seq<char>, TensorView<T>>,
    i: int,
    part: Seq<char>,
) -> Option<TensorView<T>> {
    if weights.contains_key(layer_name(i, part)) {
        Some(weights[layer_name(i, part)])
    } else {
        None
    }
}

/// The weights of layer `i`.
pub open spec fn block_weights<T>(
    weights: Map<Seq<char>, TensorView<T>>,
    i: int,
) -> BlockWeights<T> {
    BlockWeights {
        input_layernorm: named(weights, i, ".input_layernorm.weight"@),
        post_attention_layernorm: named(weights, i, ".post_attention_layernorm.weight"@),
        q_proj: named(weights, i, ".self_attn.q_proj.weight"@),
        k_proj: named(weights, i, ".self_attn.k_proj.weight"@),
        v_proj: named(weights, i, ".self_attn.v_proj.weight"@),
        o_proj: named(weights, i, ".self_attn.o_proj.weight"@),
        q_norm: optional(weights, i, ".self_attn.q_norm.weight"@),
        k_norm: optional(weights, i, ".self_attn.k_norm.weight"@),
        gate_proj: named(weights, i, ".mlp.gate_proj.weight"@),
        up_proj: named(weights, i, ".mlp.up_proj.weight"@),
        down_proj: named(weights, i, ".mlp.down_proj.weight"@),
    }
}

/// Whether a layer is made of the weights of layer `i`.
pub open spec fn layer_made_of<T: Scalar>(
    block: TransformerBlockView<T>,
    weights: Map<Seq<char>, TensorView<T>>,
    c: ModelConfig<T>,
    i: int,
) -> bool {
    exists|theta: T, eps: T|
        (functional::<T>() ==> theta == narrow::<T>(c.rope_theta) && eps == narrow::<T>(
            c.rms_norm_eps,
        )) && #[trigger] transformer_block::block_made_of(
            block,
            block_weights(weights, i),
            c.num_attention_heads,
            c.num_key_value_heads,
            c.spec_head_dim(),
            c.max_position_embeddings,
            theta,
            eps,
        )
}

/// Whether a model is made of the named weights.
pub open spec fn model_made_of<T: Scalar>(
    m: QwenModelView<T>,
    weights: Map<Seq<char>, TensorView<T>>,
    c: ModelConfig<T>,
) -> bool {
    &&& m.embed_tokens == weights["model.embed_tokens.weight"@]
    &&& m.layers.len() == c.num_hidden_layers
    &&& forall|i: int|
        0 <= i < c.num_hidden_layers ==> layer_made_of(#[trigger] m.layers[i], weights, c, i)
    &&& m.norm.weight == weights["model.norm.weight"@]
    &&& functional::<T>() ==> m.norm.eps == narrow::<T>(c.rms_norm_eps)
    &&& m.lm_head == (if c.tie_word_embeddings {
        weights["model.embed_tokens.weight"@]
    } else {
        weights["lm_head.weight"@]
    })
    &&& m.vocab_size == c.vocab_size
    &&& m.hidden_size == c.hidden_size
    &&& m == m.fresh()
}

/// Whether layers of this configuration can be built: the query heads divide among
/// the key heads, a head has pairs of dimensions, and the tables of angles can be
/// stored.
pub open spec fn layers_can_be_built<T: Scalar>(c: ModelConfig<T>) -> bool {
    &&& c.num_key_value_heads > 0
    &&& c.num_attention_heads as int % c.num_key_value_heads as int == 0
    &&& c.spec_head_dim() % 2 == 0
    &&& c.max_position_embeddings * (c.spec_head_dim() / 2) <= usize::MAX
}

/// Whether the widths that follow from the configuration can be computed.
pub open spec fn widths_fit<T: Scalar>(c: ModelConfig<T>) -> bool {
    &&& c.head_dim is Some || c.num_attention_heads > 0
    &&& c.num_attention_heads * c.spec_head_dim() <= usize::MAX
    &&& c.num_key_value_heads * c.spec_head_dim() <= usize::MAX
}

fn find<T: Scalar>(
    weights: &StringHashMap<Tensor<T>>,
    name: &str,
    shape: &[usize],
    required: bool,
) -> (r: Result<Option<Tensor<T>>, LoadError>)
    ensures
        ({
            let all = weights_of(weights@);
            let w = WeightSpec { name: name@, shape: shape@, required };
            match r {
                Ok(t) => {
                    &&& problem_with(all, w) is None
                    &&& attention::view_of(t) == (if all.contains_key(name@) {
                        Some(all[name@])
                    } else {
                        None
                    })
                },
                Err(e) => problem_with(all, w) == Some(e@),
            }
        }),
{
    match weights.get(name) {
        None => {
            if required {
                Err(LoadError::MissingWeight(name.to_owned()))
            } else {
                Ok(None)
            }
        },
        Some(t) => {
            if same_shape(t.shape(), shape) {
                Ok(Some(t.clone()))
            } else {
                Err(
                    LoadError::ShapeMismatch {
                        name: name.to_owned(),
                        expected: slice_to_vec(shape),
                        got: slice_to_vec(t.shape()),
                    },
                )
            }
        },
    }
}

fn find_required<T: Scalar>(
    weights: &StringHashMap<Tensor<T>>,
    name: &str,
    shape: &[usize],
) -> (r: Result<Tensor<T>, LoadError>)
    ensures
        ({
            let all = weights_of(weights@);
            let w = WeightSpec { name: name@, shape: shape@, required: true };
            match r {
                Ok(t) => {
                    &&& problem_with(all, w) is None
                    &&& all.contains_key(name@)
                    &&& t@ == all[name@]
                    &&& t@.shape == shape@
                },
                Err(e) => problem_with(all, w) == Some(e@),
            }
        }),
{
    match find(weights, name, shape, true) {
        Ok(Some(t)) => Ok(t),
        Ok(None) => Err(LoadError::MissingWeight(name.to_owned())),
        Err(e) => Err(e),
    }
}

fn layer_text(i: usize, part: &str) -> (r: String)
    ensures
        r@ == layer_name(i as int, part@),
{
    join3("model.layers.", decimal(i).as_str(), part)
}

fn find_in_layer<T: Scalar>(
    weights: &StringHashMap<Tensor<T>>,
    i: usize,
    part: &str,
    rows: usize,
    cols: usize,
) -> (r: Result<Tensor<T>, LoadError>)
    ensures
        ({
            let all = weights_of(weights@);
            let w = layer_weight(i as int, part@, seq![rows, cols], true);
            match r {
                Ok(t) => {
                    &&& problem_with(all, w) is None
                    &&& all.contains_key(layer_name(i as int, part@))
                    &&& t@ == named(all, i as int, part@)
                    &&& t@.shape == seq![rows, cols]
                },
                Err(e) => problem_with(all, w) == Some(e@),
            }
        }),
{
    let shape: Vec<usize> = vec![rows, cols];
    assert(shape@ =~= seq![rows, cols]);
    find_required(weights, layer_text(i, part).as_str(), shape.as_slice())
}

fn find_vector_in_layer<T: Scalar>(
    weights: &StringHashMap<Tensor<T>>,
    i: usize,
    part: &str,
    size: usize,
    required: bool,
) -> (r: Result<Option<Tensor<T>>, LoadError>)
    ensures
        ({
            let all = weights_of(weights@);
            let w = layer_weight(i as int, part@, seq![size], required);
            match r {
                Ok(t) => {
                    &&& problem_with(all, w) is None
                    &&& attention::view_of(t) == optional(all, i as int, part@)
                    &&& t matches Some(x) ==> x@.shape == seq![size]
                    &&& required ==> t is Some
                },
                Err(e) => problem_with(all, w) == Some(e@),
            }
        }),
{
    let shape: Vec<usize> = vec![size];
    assert(shape@ =~= seq![size]);
    find(weights, layer_text(i, part).as_str(), shape.as_slice(), required)
}

proof fn lemma_found_wf<T>(weights: Map<Seq<char>, TensorView<T>>, name: Seq<char>)
    requires
        all_wf(weights),
        weights.contains_key(name),
    ensures
        weights[name].wf(),
        weights[name].shape.len() == 2 ==> weights[name].is_matrix(
            weights[name].shape[0] as int,
            weights[name].shape[1] as int,
        ),
{
    if weights[name].shape.len() == 2 {
        lemma_matrix_wf(weights[name]);
    }
}

/// The weights that were found for a layer.
struct FoundLayer<T> {
    ln1: Tensor<T>,
    ln2: Tensor<T>,
    q_proj: Tensor<T>,
    k_proj: Tensor<T>,
    v_proj: Tensor<T>,
    o_proj: Tensor<T>,
    q_norm: Option<Tensor<T>>,
    k_norm: Option<Tensor<T>>,
    gate_proj: Tensor<T>,
    up_proj: Tensor<T>,
    down_proj: Tensor<T>,
}

impl<T> FoundLayer<T> {
    spec fn weights(self) -> BlockWeights<T> {
        BlockWeights {
            input_layernorm: self.ln1@,
            post_attention_layernorm: self.ln2@,
            q_proj: self.q_proj@,
            k_proj: self.k_proj@,
            v_proj: self.v_proj@,
            o_proj: self.o_proj@,
            q_norm: attention::view_of(self.q_norm),
            k_norm: attention::view_of(self.k_norm),
            gate_proj: self.gate_proj@,
            up_proj: self.up_proj@,
            down_proj: self.down_proj@,
        }
    }
}

/// Looks up the weights of layer `i`.
fn find_layer<T: Scalar>(
    weights: &StringHashMap<Tensor<T>>,
    config: &ModelConfig<T>,
    i: usize,
) -> (r: Result<FoundLayer<T>, LoadError>)
    requires
        widths_fit(*config),
    ensures
        match r {
            Ok(found) => {
                &&& first_problem(weights_of(weights@), layer_weights(*config, i as int)) is None
                &&& forall|j: int|
                    0 <= j < layer_weights(*config, i as int).len() ==> problem_with(
                        weights_of(weights@),
                        #[trigger] layer_weights(*config, i as int)[j],
                    ) is None
                &&& found.weights() == block_weights(weights_of(weights@), i as int)
            },
            Err(e) => first_problem(weights_of(weights@), layer_weights(*config, i as int)) == Some(
                e@,
            ),
        },
{
    let ghost all = weights_of(weights@);
    let ghost list = layer_weights(*config, i as int);
    let h: usize = config.hidden_size;
    let m: usize = config.intermediate_size;
    let d: usize = config.head_dim();
    let q: usize = config.num_attention_heads * d;
    let kv: usize = config.num_key_value_heads * d;
    let ln1 = match find_vector_in_layer(weights, i, ".input_layernorm.weight", h, true) {
        Ok(t) => t,
        Err(e) => {
            proof {
                lemma_first_problem_at(all, list, 0);
            }
            return Err(e);
        },
    };
    let q_proj = match find_in_layer(weights, i, ".self_attn.q_proj.weight", q, h) {
        Ok(t) => t,
        Err(e) => {
            proof {
                lemma_first_problem_at(all, list, 1);
            }
            return Err(e);
        },
    };
    let k_proj = match find_in_layer(weights, i, ".self_attn.k_proj.weight", kv, h) {
        Ok(t) => t,
        Err(e) => {
            proof {
                lemma_first_problem_at(all, list, 2);
            }
            return Err(e);
        },
    };
    let v_proj = match find_in_layer(weights, i, ".self_attn.v_proj.weight", kv, h) {
        Ok(t) => t,
        Err(e) => {
            proof {
                lemma_first_problem_at(all, list, 3);
            }
            return Err(e);
        },
    };
    let o_proj = match find_in_layer(weights, i, ".self_attn.o_proj.weight", h, q) {
        Ok(t) => t,
        Err(e) => {
            proof {
                lemma_first_problem_at(all, list, 4);
            }
            return Err(e);
        },
    };
    let q_norm = match find_vector_in_layer(weights, i, ".self_attn.q_norm.weight", d, false) {
        Ok(t) => t,
        Err(e) => {
            proof {
                lemma_first_problem_at(all, list, 5);
            }
            return Err(e);
        },
    };
    let k_norm = match find_vector_in_layer(weights, i, ".self_attn.k_norm.weight", d, false) {
        Ok(t) => t,
        Err(e) => {
            proof {
                lemma_first_problem_at(all, list, 6);
            }
            return Err(e);
        },
    };
    let ln2 = match find_vector_in_layer(weights, i, ".post_attention_layernorm.weight", h, true) {
        Ok(t) => t,
        Err(e) => {
            proof {
                lemma_first_problem_at(all, list, 7);
            }
            return Err(e);
        },
    };
    let gate_proj = match find_in_layer(weights, i, ".mlp.gate_proj.weight", m, h) {
        Ok(t) => t,
        Err(e) => {
            proof {
                lemma_first_problem_at(all, list, 8);
            }
            return Err(e);
        },
    };
    let up_proj = match find_in_layer(weights, i, ".mlp.up_proj.weight", m, h) {
        Ok(t) => t,
        Err(e) => {
            proof {
                lemma_first_problem_at(all, list, 9);
            }
            return Err(e);
        },
    };
    let down_proj = match find_in_layer(weights, i, ".mlp.down_proj.weight", h, m) {
        Ok(t) => t,
        Err(e) => {
            proof {
                lemma_first_problem_at(all, list, 10);
            }
            return Err(e);
        },
    };
    proof {
        lemma_no_problem(all, list);
    }
    Ok(
        FoundLayer {
            ln1: ln1.unwrap(),
            ln2: ln2.unwrap(),
            q_proj,
            k_proj,
            v_proj,
            o_proj,
            q_norm,
            k_norm,
            gate_proj,
            up_proj,
            down_proj,
        },
    )
}

/// Builds layer `i`.
fn load_layer<T: Scalar>(
    weights: &StringHashMap<Tensor<T>>,
    config: &ModelConfig<T>,
    i: usize,
) -> (r: Result<TransformerBlock<T>, LoadError>)
    requires
        all_wf(weights_of(weights@)),
        widths_fit(*config),
        first_problem(weights_of(weights@), layer_weights(*config, i as int)) is None
            ==> layers_can_be_built(*config),
    ensures
        match r {
            Ok(block) => {
                &&& first_problem(weights_of(weights@), layer_weights(*config, i as int)) is None
                &&& layer_made_of(block@, weights_of(weights@), *config, i as int)
                &&& block@.wf()
                &&& block@.weights_fit(config.hidden_size as int)
            },
            Err(e) => first_problem(weights_of(weights@), layer_weights(*config, i as int)) == Some(
                e@,
            ),
        },
{
    let ghost all = weights_of(weights@);
    let ghost list = layer_weights(*config, i as int);
    let found = match find_layer(weights, config, i) {
        Ok(found) => found,
        Err(e) => return Err(e),
    };
    let d: usize = config.head_dim();
    proof {
        let k = i as int;
        assert forall|j: int|
            0 <= j < list.len() && (#[trigger] list[j]).required implies all.contains_key(
            list[j].name,
        ) by {
            assert(problem_with(all, list[j]) is None);
        }
        assert(list[0].required && list[1].required && list[2].required && list[3].required);
        assert(list[4].required && list[7].required && list[8].required && list[9].required);
        assert(list[10].required);
        assert(problem_with(all, list[5]) is None && problem_with(all, list[6]) is None);
        lemma_found_wf(all, layer_name(k, ".input_layernorm.weight"@));
        lemma_found_wf(all, layer_name(k, ".post_attention_layernorm.weight"@));
        lemma_found_wf(all, layer_name(k, ".self_attn.q_proj.weight"@));
        lemma_found_wf(all, layer_name(k, ".self_attn.k_proj.weight"@));
        lemma_found_wf(all, layer_name(k, ".self_attn.v_proj.weight"@));
        lemma_found_wf(all, layer_name(k, ".self_attn.o_proj.weight"@));
        lemma_found_wf(all, layer_name(k, ".mlp.gate_proj.weight"@));
        lemma_found_wf(all, layer_name(k, ".mlp.up_proj.weight"@));
        lemma_found_wf(all, layer_name(k, ".mlp.down_proj.weight"@));
        if found.q_norm is Some {
            lemma_found_wf(all, layer_name(k, ".self_attn.q_norm.weight"@));
        }
        if found.k_norm is Some {
            lemma_found_wf(all, layer_name(k, ".self_attn.k_norm.weight"@));
        }
    }
    let theta: T = config.rope_theta_f32();
    let eps: T = config.eps_f32();
    let block = TransformerBlock::new(
        found.ln1,
        found.ln2,
        found.q_proj,
        found.k_proj,
        found.v_proj,
        found.o_proj,
        found.q_norm,
        found.k_norm,
        found.gate_proj,
        found.up_proj,
        found.down_proj,
        config.num_attention_heads,
        config.num_key_value_heads,
        d,
        config.max_position_embeddings,
        theta,
        eps,
    );
    proof {
        assert(transformer_block::block_made_of(
            block@,
            block_weights(all, i as int),
            config.num_attention_heads,
            config.num_key_value_heads,
            config.spec_head_dim(),
            config.max_position_embeddings,
            theta,
            eps,
        ));
    }
    Ok(block)
}

impl<T: Scalar> QwenModel<T> {
    /// The first weight, of the embedding and the first layer, that is missing or of
    /// another shape than the configuration says.
    pub fn first_layer_problem(
        config: &ModelConfig<T>,
        weights: &StringHashMap<Tensor<T>>,
    ) -> (r: Option<LoadError>)
        requires
            widths_fit(*config),
        ensures
            match r {
                Some(e) => first_problem(weights_of(weights@), weights_through(*config, 1)) == Some(
                    e@,
                ),
                None => first_problem(weights_of(weights@), weights_through(*config, 1)) is None,
            },
    {
        let ghost all = weights_of(weights@);
        let table_shape: Vec<usize> = vec![config.vocab_size, config.hidden_size];
        assert(table_shape@ =~= seq![config.vocab_size, config.hidden_size]);
        proof {
            reveal_with_fuel(weights_through, 2);
            lemma_first_problem_add(all, weights_through(*config, 0), layer_weights(*config, 0));
        }
        match find_required(weights, "model.embed_tokens.weight", table_shape.as_slice()) {
            Ok(_) => {},
            Err(e) => {
                proof {
                    lemma_first_problem_at(all, weights_through(*config, 0), 0);
                }
                return Some(e);
            },
        }
        proof {
            lemma_no_problem(all, weights_through(*config, 0));
        }
        match find_layer(weights, config, 0) {
            Ok(_) => None,
            Err(e) => Some(e),
        }
    }

    /// Assembles a model from named weights, or says which weight is the first to be
    /// missing or of another shape than the configuration says.
    pub fn from_weights(config: ModelConfig<T>, weights: &StringHashMap<Tensor<T>>) -> (r: Result<
        QwenModel<T>,
        LoadError,
    >)
        requires
            all_wf(weights_of(weights@)),
            widths_fit(config),
            config.num_hidden_layers > 0 && first_problem(
                weights_of(weights@),
                weights_through(config, 1),
            ) is None ==> layers_can_be_built(config),
        ensures
            match r {
                Ok(m) => {
                    &&& first_problem(weights_of(weights@), all_weights(config)) is None
                    &&& model_made_of(m@, weights_of(weights@), config)
                    &&& m@.wf()
                },
                Err(e) => first_problem(weights_of(weights@), all_weights(config)) == Some(e@),
            },
    {
        let ghost all = weights_of(weights@);
        let n: usize = config.num_hidden_layers;
        let table_shape: Vec<usize> = vec![config.vocab_size, config.hidden_size];
        assert(table_shape@ =~= seq![config.vocab_size, config.hidden_size]);
        proof {
            reveal_with_fuel(weights_through, 2);
            lemma_prefix_problem(all, config, 0);
        }
        let embed_tokens = match find_required(
            weights,
            "model.embed_tokens.weight",
            table_shape.as_slice(),
        ) {
            Ok(t) => t,
            Err(e) => {
                proof {
                    lemma_first_problem_at(all, weights_through(config, 0), 0);
                }
                return Err(e);
            },
        };
        proof {
            lemma_no_problem(all, weights_through(config, 0));
            lemma_found_wf(all, "model.embed_tokens.weight"@);
        }
        let mut layers: Vec<TransformerBlock<T>> = Vec::new();
        let mut i: usize = 0;
        while i < n
            invariant
                i <= n,
                n == config.num_hidden_layers,
                all == weights_of(weights@),
                all_wf(all),
                widths_fit(config),
                config.num_hidden_layers > 0 && first_problem(all, weights_through(config, 1))
                    is None ==> layers_can_be_built(config),
                first_problem(all, weights_through(config, i as int)) is None,
                i > 0 ==> layers_can_be_built(config),
                layers@.len() == i,
                forall|k: int|
                    0 <= k < i ==> layer_made_of((#[trigger] layers@[k])@, all, config, k)
                        && layers@[k]@.wf() && layers@[k]@.weights_fit(config.hidden_size as int),
            decreases n - i,
        {
            proof {
                lemma_first_problem_add(
                    all,
                    weights_through(config, i as int),
                    layer_weights(config, i as int),
                );
                lemma_prefix_problem(all, config, i + 1);
                assert(weights_through(config, i + 1) == weights_through(config, i as int)
                    + layer_weights(config, i as int));
            }
            match load_layer(weights, &config, i) {
                Ok(block) => {
                    layers.push(block);
                },
                Err(e) => {
                    return Err(e);
                },
            }
            i = i + 1;
        }
        let ghost tail = last_weights(config);
        proof {
            lemma_first_problem_add(all, weights_through(config, n as int), tail);
        }
        let norm_shape: Vec<usize> = vec![config.hidden_size];
        assert(norm_shape@ =~= seq![config.hidden_size]);
        let norm_weight = match find_required(
            weights,
            "model.norm.weight",
            norm_shape.as_slice(),
        ) {
            Ok(t) => t,
            Err(e) => {
                proof {
                    lemma_first_problem_at(all, tail, 0);
                }
                return Err(e);
            },
        };
        proof {
            lemma_found_wf(all, "model.norm.weight"@);
        }
        let norm = RMSNorm::new(norm_weight, config.eps_f32());
        let lm_head = if config.tie_word_embeddings {
            embed_tokens.clone()
        } else {
            match find_required(weights, "lm_head.weight", table_shape.as_slice()) {
                Ok(t) => {
                    proof {
                        lemma_found_wf(all, "lm_head.weight"@);
                    }
                    t
                },
                Err(e) => {
                    proof {
                        lemma_first_problem_at(all, tail, 1);
                    }
                    return Err(e);
                },
            }
        };
        proof {
            lemma_no_problem(all, tail);
        }
        let ghost views = model::layer_views(layers@);
        let m = QwenModel::new(embed_tokens, layers, norm, lm_head, config);
        proof {
            assert(m@.layers == views);
            assert(m@ =~= m@.fresh());
            assert forall|k: int| 0 <= k < n implies layer_made_of(
                #[trigger] m@.layers[k],
                all,
                config,
                k,
            ) by {
                assert(views[k] == layers@[k]@);
            }
            assert forall|k: int| 0 <= k < n implies (#[trigger] m@.layers[k]).wf()
                && m@.layers[k].weights_fit(m@.hidden_size as int) && m@.kv_caches[k].wf(
                m@.layers[k].self_attn.kv_dim(),
            ) by {
                assert(views[k] == layers@[k]@);
            }
        }
        Ok(m)
    }
}

/// A problem among the first weights is the first problem of all.
proof fn lemma_prefix_problem<T: Scalar>(
    weights: Map<Seq<char>, TensorView<T>>,
    c: ModelConfig<T>,
    k: int,
)
    requires
        0 <= k <= c.num_hidden_layers,
    ensures
        first_problem(weights, weights_through(c, k)) is Some ==> first_problem(
            weights,
            all_weights(c),
        ) == first_problem(weights, weights_through(c, k)),
    decreases c.num_hidden_layers - k,
{
    if k < c.num_hidden_layers {
        lemma_first_problem_add(weights, weights_through(c, k), layer_weights(c, k));
        assert(weights_through(c, k + 1) == weights_through(c, k) + layer_weights(c, k));
        lemma_prefix_problem(weights, c, k + 1);
    } else {
        lemma_first_problem_add(weights, weights_through(c, k), last_weights(c));
    }
}

/// Every part of a layer is the weight of its own name: the norms before attention and
/// before the network, the four projections and the two norms of attention, and the three
/// projections of the network, all with the number of the layer in front.
pub proof fn parts_go_by_their_names<T: Scalar>(
    m: QwenModelView<T>,
    weights: Map<Seq<char>, TensorView<T>>,
    c: ModelConfig<T>,
    i: int,
)
    requires
        model_made_of(m, weights, c),
        0 <= i < c.num_hidden_layers,
    ensures
        ({
            let block = m.layers[i];
            let front = "model.layers."@ + text::decimal_of(i as nat);
            let q_norm = front + ".self_attn.q_norm.weight"@;
            let k_norm = front + ".self_attn.k_norm.weight"@;
            &&& block.input_layernorm.weight == weights[front + ".input_layernorm.weight"@]
            &&& block.post_attention_layernorm.weight == weights[front
                + ".post_attention_layernorm.weight"@]
            &&& block.self_attn.q_proj == weights[front + ".self_attn.q_proj.weight"@]
            &&& block.self_attn.k_proj == weights[front + ".self_attn.k_proj.weight"@]
            &&& block.self_attn.v_proj == weights[front + ".self_attn.v_proj.weight"@]
            &&& block.self_attn.o_proj == weights[front + ".self_attn.o_proj.weight"@]
            &&& (block.self_attn.q_norm is Some <==> weights.contains_key(q_norm))
            &&& block.self_attn.q_norm matches Some(n) ==> n.weight == weights[q_norm]
            &&& (block.self_attn.k_norm is Some <==> weights.contains_key(k_norm))
            &&& block.self_attn.k_norm matches Some(n) ==> n.weight == weights[k_norm]
            &&& block.ffn.gate_proj == weights[front + ".mlp.gate_proj.weight"@]
            &&& block.ffn.up_proj == weights[front + ".mlp.up_proj.weight"@]
            &&& block.ffn.down_proj == weights[front + ".mlp.down_proj.weight"@]
        }),
{
    assert(layer_made_of(m.layers[i], weights, c, i));
}

/// What the configuration says goes where it belongs: the numbers of heads and their size,
/// the number of positions, the base of the angles, and the same small constant in every
/// norm.
pub proof fn configuration_is_followed<T: Scalar>(
    m: QwenModelView<T>,
    weights: Map<Seq<char>, TensorView<T>>,
    c: ModelConfig<T>,
    i: int,
)
    requires
        model_made_of(m, weights, c),
        0 <= i < c.num_hidden_layers,
        functional::<T>(),
    ensures
        ({
            let a = m.layers[i].self_attn;
            let eps = narrow::<T>(c.rms_norm_eps);
            let theta = narrow::<T>(c.rope_theta);
            let d = match c.head_dim {
                Some(d) => d,
                None => (c.hidden_size as int / c.num_attention_heads as int) as usize,
            };
            &&& a.num_heads == c.num_attention_heads
            &&& a.num_kv_heads == c.num_key_value_heads
            &&& a.head_dim == d
            &&& a.max_positions() == c.max_position_embeddings
            &&& a.cos_table == rope::cos_table_of(d, c.max_position_embeddings, theta)
            &&& a.sin_table == rope::sin_table_of(d, c.max_position_embeddings, theta)
            &&& m.layers[i].input_layernorm.eps == eps
            &&& m.layers[i].post_attention_layernorm.eps == eps
            &&& a.q_norm matches Some(n) ==> n.eps == eps
            &&& a.k_norm matches Some(n) ==> n.eps == eps
            &&& m.norm.eps == eps
        }),
{
    assert(layer_made_of(m.layers[i], weights, c, i));
}

/// A model whose embeddings are tied projects with its embedding table; another one has a
/// projection of its own. Nothing has been seen yet.
pub proof fn tied_models_share_the_table<T: Scalar>(
    m: QwenModelView<T>,
    weights: Map<Seq<char>, TensorView<T>>,
    c: ModelConfig<T>,
)
    requires
        model_made_of(m, weights, c),
    ensures
        m.embed_tokens == weights["model.embed_tokens.weight"@],
        m.norm.weight == weights["model.norm.weight"@],
        c.tie_word_embeddings ==> m.lm_head == m.embed_tokens,
        !c.tie_word_embeddings ==> m.lm_head == weights["lm_head.weight"@],
        m.layers.len() == c.num_hidden_layers,
        m.cached() == 0,
{
    if m.kv_caches.len() > 0 {
        assert(m.kv_caches[0] == m.fresh().kv_caches[0]);
    }
}

/// Of several problems the first in the list is the one that is reported, and there is none
/// to report where every weight that is needed is there and every weight that is there has
/// its shape.
pub proof fn first_problem_is_reported<T>(
    weights: Map<Seq<char>, TensorView<T>>,
    list: Seq<WeightSpec>,
    k: int,
)
    requires
        0 <= k <= list.len(),
        forall|j: int|
            0 <= j < k ==> (if weights.contains_key((#[trigger] list[j]).name) {
                weights[list[j].name].shape == list[j].shape
            } else {
                !list[j].required
            }),
    ensures
        k == list.len() ==> first_problem(weights, list) is None,
        k < list.len() && !weights.contains_key(list[k].name) && list[k].required
            ==> first_problem(weights, list) == Some(Problem::Missing { name: list[k].name }),
        k < list.len() && weights.contains_key(list[k].name) && weights[list[k].name].shape
            != list[k].shape ==> first_problem(weights, list) == Some(
            Problem::Shape {
                name: list[k].name,
                expected: list[k].shape,
                got: weights[list[k].name].shape,
            },
        ),
    decreases k,
{
    if k > 0 {
        let rest = list.drop_first();
        assert(problem_with(weights, list[0]) is None);
        assert forall|j: int| 0 <= j < k - 1 implies (if weights.contains_key(
            (#[trigger] rest[j]).name,
        ) {
            weights[rest[j].name].shape == rest[j].shape
        } else {
            !rest[j].required
        }) by {
            assert(rest[j] == list[j + 1]);
        }
        first_problem_is_reported(weights, rest, k - 1);
        if k < list.len() {
            assert(rest[k - 1] == list[k]);
        }
    }
}

/// Only the norms of the heads may be absent.
pub proof fn only_head_norms_may_be_absent<T: Scalar>(c: ModelConfig<T>, i: int, k: int)
    requires
        0 <= k < layer_weights(c, i).len(),
    ensures
        ({
            let front = "model.layers."@ + text::decimal_of(i as nat);
            let w = layer_weights(c, i)[k];
            !w.required <==> w.name == front + ".self_attn.q_norm.weight"@ || w.name == front
                + ".self_attn.k_norm.weight"@
        }),
{
    let front = "model.layers."@ + text::decimal_of(i as nat);
    let (q, h) = (".self_attn.q_norm.weight"@, ".self_attn.k_norm.weight"@);
    reveal_strlit(".input_layernorm.weight");
    reveal_strlit(".self_attn.q_proj.weight");
    reveal_strlit(".self_attn.k_proj.weight");
    reveal_strlit(".self_attn.v_proj.weight");
    reveal_strlit(".self_attn.o_proj.weight");
    reveal_strlit(".self_attn.q_norm.weight");
    reveal_strlit(".self_attn.k_norm.weight");
    reveal_strlit(".post_attention_layernorm.weight");
    reveal_strlit(".mlp.gate_proj.weight");
    reveal_strlit(".mlp.up_proj.weight");
    reveal_strlit(".mlp.down_proj.weight");
    let w = layer_weights(c, i)[k];
    let n = front.len() as int;
    let tail = w.name.skip(n);
    assert((front + q).skip(n) =~= q && (front + h).skip(n) =~= h);
    assert(tail =~= (if k == 0 {
        ".input_layernorm.weight"@
    } else if k == 1 {
        ".self_attn.q_proj.weight"@
    } else if k == 2 {
        ".self_attn.k_proj.weight"@
    } else if k == 3 {
        ".self_attn.v_proj.weight"@
    } else if k == 4 {
        ".self_attn.o_proj.weight"@
    } else if k == 5 {
        q
    } else if k == 6 {
        h
    } else if k == 7 {
        ".post_attention_layernorm.weight"@
    } else if k == 8 {
        ".mlp.gate_proj.weight"@
    } else if k == 9 {
        ".mlp.up_proj.weight"@
    } else {
        ".mlp.down_proj.weight"@
    }));
    assert(q.len() == 24 && h.len() == 24);
    assert(q[13] == 'n' && h[13] == 'n');
    if 1 <= k <= 4 {
        assert(tail[13] == 'p');
    }
}

} // verus!
