use qwen3_5_rs::config::ModelConfig;
use qwen3_5_rs::inference::{InferenceEngine, Progress};
use qwen3_5_rs::load::LoadError;
use qwen3_5_rs::model::QwenModel;
use qwen3_5_rs::rmsnorm::RMSNorm;
use qwen3_5_rs::safetensors::read_safetensors_as_tensors;
use qwen3_5_rs::sampling::{sample, sample_greedy, SamplingConfig};
use qwen3_5_rs::scalar::Scalar;
use qwen3_5_rs::tensor::Tensor;
use qwen3_5_rs::tokenizer::{
    deserialize_merges, AddedToken, MergeItem, MergesField, Tokenizer,
};
use qwen3_5_rs::transformer_block::TransformerBlock;
use serde_json::Value;

/// Single-precision numbers.
#[derive(Clone, Copy, Debug, PartialEq)]
struct F(f32);

impl Scalar for F {
    type Wide = f64;

    fn zero() -> F {
        F(0.0)
    }
    fn one() -> F {
        F(1.0)
    }
    fn lowest() -> F {
        F(f32::NEG_INFINITY)
    }
    fn from_count(n: u64) -> F {
        F(n as f32)
    }
    fn from_bits(bits: u32) -> F {
        F(f32::from_bits(bits))
    }
    fn narrow(wide: f64) -> F {
        F(wide as f32)
    }
    fn negated(self) -> F {
        F(-self.0)
    }
    fn exp(self) -> F {
        F(self.0.exp())
    }
    fn sqrt(self) -> F {
        F(self.0.sqrt())
    }
    fn cos(self) -> F {
        F(self.0.cos())
    }
    fn sin(self) -> F {
        F(self.0.sin())
    }
    fn plus(self, rhs: F) -> F {
        F(self.0 + rhs.0)
    }
    fn minus(self, rhs: F) -> F {
        F(self.0 - rhs.0)
    }
    fn times(self, rhs: F) -> F {
        F(self.0 * rhs.0)
    }
    fn over(self, rhs: F) -> F {
        F(self.0 / rhs.0)
    }
    fn powf(self, rhs: F) -> F {
        F(self.0.powf(rhs.0))
    }
    fn larger(self, rhs: F) -> F {
        F(self.0.max(rhs.0))
    }
    fn less_than(self, rhs: F) -> bool {
        self.0 < rhs.0
    }
    fn at_least(self, rhs: F) -> bool {
        self.0 >= rhs.0
    }
    fn same_as(self, rhs: F) -> bool {
        self.0 == rhs.0
    }
}

fn tensor(shape: Vec<usize>, data: Vec<f32>) -> Tensor<F> {
    Tensor::new(shape, data.into_iter().map(F).collect())
}

fn ones(shape: Vec<usize>) -> Tensor<F> {
    Tensor::ones(shape)
}

fn vals(t: &Tensor<F>) -> Vec<f32> {
    t.data().iter().map(|v| v.0).collect()
}

/// Reads the parts of a tokenizer file.
fn tokenizer_from_json(json: &str) -> Tokenizer {
    let file: Value = serde_json::from_str(json).unwrap();
    let vocab: Vec<(String, usize)> = file["model"]["vocab"]
        .as_object()
        .unwrap()
        .iter()
        .map(|(token, id)| (token.clone(), id.as_u64().unwrap() as usize))
        .collect();
    let merges = match &file["model"]["merges"] {
        Value::Null => MergesField::Missing,
        Value::Array(items) => MergesField::List(items.iter().map(merge_item).collect()),
        _ => MergesField::Other,
    };
    let added = file["added_tokens"].as_array().map(|tokens| {
        tokens
            .iter()
            .map(|t| AddedToken {
                id: t["id"].as_u64().unwrap() as usize,
                content: t["content"].as_str().unwrap().to_string(),
                special: t["special"].as_bool(),
            })
            .collect::<Vec<_>>()
    });
    Tokenizer::from_parts(vocab, deserialize_merges(&merges), added)
}

fn merge_item(value: &Value) -> MergeItem {
    match value {
        Value::String(s) => MergeItem::Text(s.clone()),
        Value::Array(parts) => {
            MergeItem::List(parts.iter().map(|p| p.as_str().map(|s| s.to_string())).collect())
        }
        _ => MergeItem::Other,
    }
}

/// Reads a configuration file.
fn config_from_json(json: &str) -> ModelConfig<F> {
    let file: Value = serde_json::from_str(json).unwrap();
    let size = |name: &str| file[name].as_u64().unwrap() as usize;
    ModelConfig {
        vocab_size: size("vocab_size"),
        hidden_size: size("hidden_size"),
        num_hidden_layers: size("num_hidden_layers"),
        num_attention_heads: size("num_attention_heads"),
        num_key_value_heads: size("num_key_value_heads"),
        intermediate_size: size("intermediate_size"),
        max_position_embeddings: size("max_position_embeddings"),
        rms_norm_eps: file["rms_norm_eps"].as_f64().unwrap(),
        rope_theta: file["rope_theta"].as_f64().unwrap(),
        hidden_act: file["hidden_act"].as_str().unwrap().to_string(),
        tie_word_embeddings: file["tie_word_embeddings"].as_bool().unwrap(),
        head_dim: file["head_dim"].as_u64().map(|d| d as usize),
    }
}

fn choosing(temperature: f32, top_k: usize, top_p: f32, seed: Option<u64>) -> SamplingConfig<F> {
    SamplingConfig { temperature: F(temperature), top_k, top_p: F(top_p), seed }
}

const VOCAB: usize = 32;
const HIDDEN: usize = 16;
const NUM_LAYERS: usize = 1;
const NUM_HEADS: usize = 2;
const NUM_KV_HEADS: usize = 1;
const HEAD_DIM: usize = 8;
const KV_DIM: usize = NUM_KV_HEADS * HEAD_DIM;
const INTERMEDIATE: usize = 32;

const QWEN3_CONFIG_JSON: &str = r#"{
    "architectures": ["Qwen3ForCausalLM"],
    "model_type": "qwen3",
    "vocab_size": 151936,
    "hidden_size": 1024,
    "num_hidden_layers": 28,
    "num_attention_heads": 16,
    "num_key_value_heads": 8,
    "intermediate_size": 3072,
    "max_position_embeddings": 40960,
    "rms_norm_eps": 1e-6,
    "rope_theta": 1000000.0,
    "hidden_act": "silu",
    "tie_word_embeddings": true,
    "head_dim": 128
}"#;

#[test]
fn test_parse_from_json_string() {
    let config = config_from_json(QWEN3_CONFIG_JSON);

    assert_eq!(config.vocab_size, 151936);
    assert_eq!(config.hidden_size, 1024);
    assert_eq!(config.num_hidden_layers, 28);
    assert_eq!(config.num_attention_heads, 16);
    assert_eq!(config.num_key_value_heads, 8);
    assert_eq!(config.intermediate_size, 3072);
    assert_eq!(config.max_position_embeddings, 40960);
    assert!((config.rms_norm_eps - 1e-6).abs() < 1e-18);
    assert!((config.rope_theta - 1000000.0).abs() < 1e-10);
    assert_eq!(config.hidden_act, "silu");
    assert!(config.tie_word_embeddings);
}

#[test]
fn test_head_dim_explicit() {
    let config = config_from_json(QWEN3_CONFIG_JSON);
    // Explicitly set to 128 in the JSON (overrides default 1024/16=64)
    assert_eq!(config.head_dim(), 128);
    assert_eq!(config.head_dim, Some(128));
}

#[test]
fn a_head_dimension_that_is_given_needs_no_heads() {
    let json = QWEN3_CONFIG_JSON
        .replace("\"num_attention_heads\": 16", "\"num_attention_heads\": 0");
    let config = config_from_json(&json);
    assert_eq!(config.num_attention_heads, 0);
    assert_eq!(config.head_dim(), 128);
}

#[test]
fn test_head_dim_fallback() {
    // When head_dim is not in the config, it should fall back to
    // hidden_size / num_attention_heads.
    let json = r#"{
        "vocab_size": 151936,
        "hidden_size": 1024,
        "num_hidden_layers": 28,
        "num_attention_heads": 16,
        "num_key_value_heads": 8,
        "intermediate_size": 3072,
        "max_position_embeddings": 40960,
        "rms_norm_eps": 1e-6,
        "rope_theta": 1000000.0,
        "hidden_act": "silu",
        "tie_word_embeddings": true
    }"#;
    let config = config_from_json(json);
    // No explicit head_dim — should compute 1024 / 16 = 64
    assert_eq!(config.head_dim, None);
    assert_eq!(config.head_dim(), 64);
}

#[test]
fn test_head_dim_override() {
    // Qwen3-0.6B has head_dim=128 which differs from hidden_size/num_heads=64.
    let json = r#"{
        "vocab_size": 151936,
        "hidden_size": 1024,
        "num_hidden_layers": 28,
        "num_attention_heads": 16,
        "num_key_value_heads": 8,
        "intermediate_size": 3072,
        "max_position_embeddings": 40960,
        "rms_norm_eps": 1e-6,
        "rope_theta": 1000000.0,
        "hidden_act": "silu",
        "tie_word_embeddings": true,
        "head_dim": 128
    }"#;
    let config = config_from_json(json);
    // Explicit head_dim should override the default computation
    assert_eq!(config.head_dim, Some(128));
    assert_eq!(config.head_dim(), 128);
}

#[test]
fn test_eps_f32() {
    let config = config_from_json(QWEN3_CONFIG_JSON);
    let eps = config.eps_f32().0;
    // The f64 value 1e-6 cast to f32 should be very close to 1e-6.
    assert!(
        (eps - 1e-6f32).abs() < 1e-12f32,
        "eps_f32 should be close to 1e-6, got {}",
        eps,
    );
}

#[test]
fn test_rope_theta_f32() {
    let config = config_from_json(QWEN3_CONFIG_JSON);
    let theta = config.rope_theta_f32().0;
    // The f64 value 1000000.0 is exactly representable in f32.
    assert!(
        (theta - 1000000.0f32).abs() < 1.0,
        "rope_theta_f32 should be close to 1000000.0, got {}",
        theta,
    );
}

#[test]
fn test_extra_json_fields_ignored() {
    // Configs from HuggingFace often contain extra fields like
    // "architectures", "model_type", "bos_token_id", etc.
    // serde should silently ignore them.
    let json = r#"{
        "architectures": ["Qwen3ForCausalLM"],
        "model_type": "qwen3",
        "bos_token_id": 151643,
        "eos_token_id": 151645,
        "vocab_size": 151936,
        "hidden_size": 1024,
        "num_hidden_layers": 28,
        "num_attention_heads": 16,
        "num_key_value_heads": 8,
        "intermediate_size": 3072,
        "max_position_embeddings": 40960,
        "rms_norm_eps": 1e-6,
        "rope_theta": 1000000.0,
        "hidden_act": "silu",
        "tie_word_embeddings": true,
        "head_dim": 128,
        "torch_dtype": "bfloat16",
        "transformers_version": "4.40.0"
    }"#;

    let config = config_from_json(json);
    assert_eq!(config.vocab_size, 151936);
    assert_eq!(config.head_dim(), 128);
}

#[test]
fn test_tie_word_embeddings_true() {
    let json = r#"{
        "vocab_size": 32000,
        "hidden_size": 512,
        "num_hidden_layers": 6,
        "num_attention_heads": 8,
        "num_key_value_heads": 8,
        "intermediate_size": 1536,
        "max_position_embeddings": 2048,
        "rms_norm_eps": 1e-5,
        "rope_theta": 10000.0,
        "hidden_act": "gelu",
        "tie_word_embeddings": true
    }"#;

    let config = config_from_json(json);
    assert!(config.tie_word_embeddings);
    assert_eq!(config.head_dim(), 64); // 512 / 8 (fallback, no explicit head_dim)
    assert_eq!(config.head_dim, None); // not explicitly set
}

#[test]
fn config_test_from_file() {
    let config = config_from_json(QWEN3_CONFIG_JSON);

    assert_eq!(config.vocab_size, 151936);
    assert_eq!(config.hidden_size, 1024);
    assert_eq!(config.num_hidden_layers, 28);
    assert_eq!(config.head_dim(), 128);
}

fn make_test_model() -> QwenModel<F> {
    let config = ModelConfig {
        vocab_size: VOCAB,
        hidden_size: HIDDEN,
        num_hidden_layers: NUM_LAYERS,
        num_attention_heads: NUM_HEADS,
        num_key_value_heads: NUM_KV_HEADS,
        intermediate_size: INTERMEDIATE,
        max_position_embeddings: 64,
        rms_norm_eps: 1e-6,
        rope_theta: 10000.0,
        hidden_act: "silu".to_string(),
        tie_word_embeddings: false,
        head_dim: None,
    };

    let embed_tokens = tensor(
        vec![VOCAB, HIDDEN],
        (0..VOCAB * HIDDEN).map(|i| (i as f32 * 0.01).sin()).collect(),
    );

    let ln1_weight = ones(vec![HIDDEN]);
    let ln2_weight = ones(vec![HIDDEN]);

    let q_proj = tensor(
        vec![HIDDEN, HIDDEN],
        (0..HIDDEN * HIDDEN)
            .map(|i| if i / HIDDEN == i % HIDDEN { 1.0 } else { 0.0 })
            .collect(),
    );
    let k_proj = tensor(
        vec![KV_DIM, HIDDEN],
        (0..KV_DIM * HIDDEN)
            .map(|i| if i / HIDDEN == i % HIDDEN { 1.0 } else { 0.0 })
            .collect(),
    );
    let v_proj = tensor(
        vec![KV_DIM, HIDDEN],
        (0..KV_DIM * HIDDEN)
            .map(|i| if i / HIDDEN == i % HIDDEN { 1.0 } else { 0.0 })
            .collect(),
    );
    let o_proj = tensor(
        vec![HIDDEN, HIDDEN],
        (0..HIDDEN * HIDDEN)
            .map(|i| if i / HIDDEN == i % HIDDEN { 1.0 } else { 0.0 })
            .collect(),
    );

    let gate_proj = tensor(vec![INTERMEDIATE, HIDDEN], vec![0.1; INTERMEDIATE * HIDDEN]);
    let up_proj = tensor(vec![INTERMEDIATE, HIDDEN], vec![0.1; INTERMEDIATE * HIDDEN]);
    let down_proj = tensor(vec![HIDDEN, INTERMEDIATE], vec![0.1; HIDDEN * INTERMEDIATE]);

    let block = TransformerBlock::new(
        ln1_weight,
        ln2_weight,
        q_proj,
        k_proj,
        v_proj,
        o_proj,
        None,
        None,
        gate_proj,
        up_proj,
        down_proj,
        NUM_HEADS,
        NUM_KV_HEADS,
        HEAD_DIM,
        config.max_position_embeddings,
        config.rope_theta_f32(),
        config.eps_f32(),
    );

    let norm_weight = ones(vec![HIDDEN]);
    let norm = RMSNorm::new(norm_weight, config.eps_f32());

    let lm_head = tensor(
        vec![VOCAB, HIDDEN],
        (0..VOCAB * HIDDEN).map(|i| (i as f32 * 0.02).cos()).collect(),
    );

    QwenModel::new(embed_tokens, vec![block], norm, lm_head, config)
}

fn make_test_tokenizer() -> Tokenizer {
    let json = r#"{
        "version": "1.0",
        "added_tokens": [
            {"id": 0, "content": "<eos>", "single_word": false, "lstrip": false, "rstrip": false, "normalized": false, "special": true}
        ],
        "model": {
            "type": "BPE",
            "vocab": {
                "<eos>": 0,
                "a": 1,
                "b": 2,
                "c": 3,
                "d": 4,
                "e": 5,
                "f": 6,
                "g": 7,
                "h": 8,
                "i": 9,
                "j": 10,
                "k": 11,
                "l": 12,
                "m": 13,
                "n": 14,
                "o": 15,
                "p": 16,
                "q": 17,
                "r": 18,
                "s": 19,
                "t": 20,
                "u": 21,
                "v": 22,
                "w": 23,
                "x": 24,
                "y": 25,
                "z": 26,
                "Ġ": 27,
                "!": 28,
                "ab": 29,
                "cd": 30,
                "Ġa": 31
            },
            "merges": [
                "a b",
                "c d",
                "Ġ a"
            ]
        }
    }"#;
    tokenizer_from_json(json)
}

fn make_test_engine() -> InferenceEngine<F> {
    make_test_engine_with_config(SamplingConfig::default())
}

fn make_test_engine_with_config(sampling_config: SamplingConfig<F>) -> InferenceEngine<F> {
    InferenceEngine::new(
        make_test_model(),
        make_test_tokenizer(),
        sampling_config,
    )
}

#[test]
fn test_forward_single_token() {
    let mut model = make_test_model();
    let token_ids = &[5usize];
    let logits = model.forward(token_ids, 0);

    assert_eq!(
        logits.shape(),
        &[1, 32],
        "output shape should be [1, 32], got {:?}",
        logits.shape(),
    );

    // Logits should be finite
    for &v in vals(&logits).iter() {
        assert!(v.is_finite(), "logits should be finite, got {}", v);
    }
}

#[test]
fn test_forward_multiple_tokens() {
    let mut model = make_test_model();
    let token_ids: &[usize] = &[3, 7, 15];
    let logits = model.forward(token_ids, 0);

    assert_eq!(
        logits.shape(),
        &[3, 32],
        "output shape should be [3, 32], got {:?}",
        logits.shape(),
    );

    for &v in vals(&logits).iter() {
        assert!(v.is_finite(), "logits should be finite, got {}", v);
    }
}

#[test]
fn test_output_shape_various_seq_lens() {
    let mut model = make_test_model();
    let vocab = 32;

    for seq_len in &[1, 2, 5, 10] {
        let token_ids: Vec<usize> = (0..*seq_len).map(|i| i % vocab).collect();
        let logits = model.forward(&token_ids, 0);
        assert_eq!(
            logits.shape(),
            &[*seq_len, vocab],
            "output shape should be [{}, {}], got {:?}",
            seq_len,
            vocab,
            logits.shape(),
        );
    }
}

#[test]
fn test_kv_caches_created_per_layer() {
    let mut model = make_test_model();

    // Before forward: caches should exist but be empty
    assert_eq!(
        model.kv_caches().len(),
        NUM_LAYERS,
        "should have one KV cache per layer",
    );
    for (i, cache) in model.kv_caches().iter().enumerate() {
        assert!(
            cache.key_cache.is_none(),
            "layer {} key cache should start empty",
            i,
        );
        assert!(
            cache.value_cache.is_none(),
            "layer {} value cache should start empty",
            i,
        );
    }

    // After forward pass: caches should be populated
    let token_ids: &[usize] = &[1, 2, 3];
    let _logits = model.forward(token_ids, 0);

    for (i, cache) in model.kv_caches().iter().enumerate() {
        assert!(
            cache.key_cache.is_some(),
            "layer {} key cache should be populated after forward",
            i,
        );
        assert!(
            cache.value_cache.is_some(),
            "layer {} value cache should be populated after forward",
            i,
        );
        // Each cache should have seq_len rows
        assert_eq!(
            cache.key_cache.as_ref().unwrap().shape()[0],
            3,
            "layer {} key cache should have 3 rows",
            i,
        );
    }
}

#[test]
fn test_prefill_then_decode() {
    let mut model = make_test_model();

    // Prefill: process 3 tokens
    let prefill_ids: &[usize] = &[0, 5, 10];
    let logits_prefill = model.forward(prefill_ids, 0);
    assert_eq!(logits_prefill.shape(), &[3, 32]);

    // Decode: process 1 more token
    let decode_id: &[usize] = &[15];
    let logits_decode = model.forward(decode_id, 3);
    assert_eq!(logits_decode.shape(), &[1, 32]);

    // KV cache should now have 4 rows (3 + 1)
    for (i, cache) in model.kv_caches().iter().enumerate() {
        assert_eq!(
            cache.key_cache.as_ref().unwrap().shape()[0],
            4,
            "layer {} cache should have 4 rows after prefill+decode",
            i,
        );
    }

    // All logits should be finite
    for &v in vals(&logits_decode).iter() {
        assert!(v.is_finite(), "decode logits should be finite, got {}", v);
    }
}

#[test]
fn test_different_tokens_different_logits() {
    let mut model1 = make_test_model();
    let mut model2 = make_test_model();

    let logits1 = model1.forward(&[0], 0);
    let logits2 = model2.forward(&[10], 0);

    let any_different = vals(&logits1)
        .iter()
        .zip(vals(&logits2).iter())
        .any(|(a, b)| (a - b).abs() > 1e-6);

    assert!(
        any_different,
        "different token IDs should produce different logits"
    );
}

fn small_config(vocab: usize, hidden: usize, tied: bool) -> ModelConfig<F> {
    config_from_json(&format!(
        r#"{{
            "vocab_size": {vocab},
            "hidden_size": {hidden},
            "num_hidden_layers": 1,
            "num_attention_heads": 2,
            "num_key_value_heads": 1,
            "intermediate_size": 8,
            "max_position_embeddings": 32,
            "rms_norm_eps": 1e-6,
            "rope_theta": 10000.0,
            "hidden_act": "silu",
            "tie_word_embeddings": {tied}
        }}"#
    ))
}

/// The bytes of a file of tensors.
fn file_of(tensors: &[(String, Vec<usize>, Vec<f32>)]) -> Vec<u8> {
    let mut data_bytes: Vec<u8> = Vec::new();
    let mut header_entries: Vec<String> = Vec::new();
    for (name, shape, values) in tensors {
        let num_elements: usize = shape.iter().product();
        assert_eq!(values.len(), num_elements, "tensor {} element count mismatch", name);
        let start = data_bytes.len();
        for v in values {
            data_bytes.extend_from_slice(&v.to_le_bytes());
        }
        let end = data_bytes.len();
        let shape_str = shape.iter().map(|d| d.to_string()).collect::<Vec<_>>().join(",");
        header_entries.push(format!(
            r#""{}":{{"dtype":"F32","shape":[{}],"data_offsets":[{},{}]}}"#,
            name, shape_str, start, end
        ));
    }
    let header_json = format!("{{{}}}", header_entries.join(","));
    let header_bytes = header_json.as_bytes();
    let json_len = header_bytes.len();
    let aligned_len = ((json_len + 7) / 8) * 8;
    let padding = aligned_len - json_len;
    let header_size = aligned_len as u64;

    let mut file_data = Vec::new();
    file_data.extend_from_slice(&header_size.to_le_bytes());
    file_data.extend_from_slice(header_bytes);
    file_data.extend_from_slice(&vec![b' '; padding]);
    file_data.extend_from_slice(&data_bytes);
    file_data
}

/// The weights of a model of one layer.
fn weights_of(
    vocab: usize,
    hidden: usize,
    kv_dim: usize,
    intermediate: usize,
) -> Vec<(String, Vec<usize>, Vec<f32>)> {
    let identity = |rows: usize| -> Vec<f32> {
        (0..rows * hidden).map(|i| if i / hidden == i % hidden { 1.0 } else { 0.0 }).collect()
    };
    let layer = |name: &str| format!("model.layers.0.{}.weight", name);
    vec![
        (
            "model.embed_tokens.weight".to_string(),
            vec![vocab, hidden],
            (0..vocab * hidden).map(|i| (i as f32 * 0.01).sin()).collect(),
        ),
        (layer("input_layernorm"), vec![hidden], vec![1.0; hidden]),
        (layer("self_attn.q_proj"), vec![hidden, hidden], identity(hidden)),
        (layer("self_attn.k_proj"), vec![kv_dim, hidden], identity(kv_dim)),
        (layer("self_attn.v_proj"), vec![kv_dim, hidden], identity(kv_dim)),
        (layer("self_attn.o_proj"), vec![hidden, hidden], identity(hidden)),
        (layer("post_attention_layernorm"), vec![hidden], vec![1.0; hidden]),
        (layer("mlp.gate_proj"), vec![intermediate, hidden], vec![0.1; intermediate * hidden]),
        (layer("mlp.up_proj"), vec![intermediate, hidden], vec![0.1; intermediate * hidden]),
        (layer("mlp.down_proj"), vec![hidden, intermediate], vec![0.1; hidden * intermediate]),
        ("model.norm.weight".to_string(), vec![hidden], vec![1.0; hidden]),
        (
            "lm_head.weight".to_string(),
            vec![vocab, hidden],
            (0..vocab * hidden).map(|i| (i as f32 * 0.02).cos()).collect(),
        ),
    ]
}

fn load(
    config: ModelConfig<F>,
    tensors: &[(String, Vec<usize>, Vec<f32>)],
) -> Result<QwenModel<F>, LoadError> {
    let weights = read_safetensors_as_tensors::<F>(&file_of(tensors)).unwrap();
    QwenModel::from_weights(config, &weights)
}

#[test]
fn test_load_from_directory() {
    let vocab = 8;
    let mut model = load(small_config(vocab, 4, false), &weights_of(vocab, 4, 2, 8))
        .expect("loading should succeed");
    assert_eq!(model.vocab_size(), vocab);
    assert_eq!(model.kv_caches().len(), 1);

    let token_ids: &[usize] = &[0, 3, 7];
    let logits = model.forward(token_ids, 0);
    assert_eq!(
        logits.shape(),
        &[3, vocab],
        "output shape should be [3, {}], got {:?}",
        vocab,
        logits.shape(),
    );
    for &v in vals(&logits).iter() {
        assert!(v.is_finite(), "logits should be finite, got {}", v);
    }
}

#[test]
fn test_load_missing_weight_error() {
    let tensors = weights_of(8, 4, 2, 8);
    let err_msg = match load(small_config(8, 4, false), &tensors[..1]) {
        Ok(_) => panic!("expected load to fail due to missing weight"),
        Err(e) => e.message(),
    };
    assert!(
        err_msg.contains("Missing weight: model.layers.0.input_layernorm.weight"),
        "error should mention the missing weight, got: {}",
        err_msg,
    );
}

#[test]
fn test_load_shape_mismatch_error() {
    let mut tensors = weights_of(8, 4, 2, 8);
    tensors[3].1 = vec![4, 4];
    tensors[3].2 = vec![0.0; 16];
    let err_msg = match load(small_config(8, 4, false), &tensors) {
        Ok(_) => panic!("expected load to fail due to shape mismatch"),
        Err(e) => e.message(),
    };
    assert!(
        err_msg.contains("Shape mismatch for model.layers.0.self_attn.k_proj.weight"),
        "error should mention shape mismatch for k_proj, got: {}",
        err_msg,
    );
    assert_eq!(
        err_msg,
        "Shape mismatch for model.layers.0.self_attn.k_proj.weight: expected [2, 4], got [4, 4]"
    );
}

#[test]
fn test_load_tied_embeddings() {
    let vocab = 8;
    let mut tensors = weights_of(vocab, 4, 2, 8);
    tensors.pop();
    let config = small_config(vocab, 4, true);
    assert!(config.tie_word_embeddings);
    let mut model = load(config, &tensors).expect("loading should succeed with tied embeddings");

    let logits = model.forward(&[0, 3], 0);
    assert_eq!(logits.shape(), &[2, vocab]);
    for &v in vals(&logits).iter() {
        assert!(v.is_finite(), "logits should be finite, got {}", v);
    }
}

fn make_other_engine(sampling_config: SamplingConfig<F>) -> InferenceEngine<F> {
    let tokenizer_json = r#"{
        "version": "1.0",
        "added_tokens": [
            {"id": 0, "content": "<|endoftext|>", "single_word": false, "lstrip": false, "rstrip": false, "normalized": false, "special": true}
        ],
        "model": {
            "type": "BPE",
            "vocab": {
                "<|endoftext|>": 0,
                "a": 1,
                "b": 2,
                "c": 3,
                "d": 4,
                "e": 5,
                "f": 6,
                "g": 7,
                "h": 8,
                "i": 9,
                "j": 10,
                "k": 11,
                "l": 12,
                "m": 13,
                "n": 14,
                "o": 15,
                "p": 16,
                "q": 17,
                "r": 18,
                "s": 19,
                "t": 20,
                "u": 21,
                "v": 22,
                "w": 23,
                "x": 24,
                "y": 25,
                "z": 26,
                " ": 27,
                "!": 28,
                "ab": 29,
                "cd": 30,
                "Ġ": 31
            },
            "merges": [
                "a b",
                "c d"
            ]
        }
    }"#;
    InferenceEngine::new(make_test_model(), tokenizer_from_json(tokenizer_json), sampling_config)
}

#[test]
fn test_generate_basic() {
    let mut engine = make_other_engine(SamplingConfig::default());

    let output = engine.generate("a", 10);
    // The output should at least contain the prompt.
    assert!(
        !output.is_empty(),
        "generate should produce non-empty output"
    );
    assert!(
        output.starts_with('a'),
        "output should start with the prompt text"
    );
}

#[test]
fn test_generate_with_max_tokens() {
    // Use greedy sampling so the output is deterministic.
    let config = choosing(0.0, 0, 1.0, None);
    let mut engine = make_other_engine(config);

    // Generate with max_tokens = 3.
    let output = engine.generate("a", 3);
    assert!(
        output.starts_with('a'),
        "output should start with the prompt text"
    );

    // At most two characters for each of at most three tokens.
    let generated = &output[1..];
    assert!(generated.chars().count() <= 6, "at most three tokens, got {:?}", generated);
}

#[test]
fn test_reset_clears_cache() {
    let mut engine = make_other_engine(SamplingConfig::default());

    // Do a generation to populate KV caches.
    let _ = engine.generate("ab", 5);

    // After generation, KV caches should be populated (non-empty).
    // We verify this indirectly: after reset, caches should be clear.
    engine.reset();

    // Now check caches are empty after reset.
    for cache in engine.model().kv_caches() {
        assert!(
            cache.key_cache.is_none(),
            "key cache should be None after reset"
        );
        assert!(
            cache.value_cache.is_none(),
            "value cache should be None after reset"
        );
    }
}

#[test]
fn test_eos_stops_generation() {
    // We construct a scenario where the model will produce the EOS token.
    // With our tiny test model, we can manipulate the lm_head weights
    // so that a specific input token always produces EOS as the top token.
    //
    // Strategy: Create an engine where the lm_head weights are set up so
    // that for any input, token 0 (EOS) gets the highest logit.
    // We do this by making the lm_head's first row all very large values
    // and the rest zero.

    let config = choosing(0.0, 0, 1.0, None);
    let mut engine = make_other_engine(config);

    // Verify that EOS token ID is 0 for our test tokenizer.
    assert_eq!(engine.eos_token_id(), 0, "EOS token should be ID 0");

    // Manipulate the model's lm_head so that token 0 (EOS) always wins.
    // The lm_head has shape [vocab_size, hidden_size].
    // Row 0 corresponds to EOS. Set it to large values.
    {
        let lm_head = engine.model_mut().lm_head_mut();
        let vocab = lm_head.shape()[0];
        let hidden = lm_head.shape()[1];
        let mut data = vals(lm_head);
        // Set row 0 (EOS) to large positive values.
        for j in 0..hidden {
            data[j] = 100.0;
        }
        // Set all other rows to zero so EOS dominates.
        for i in 1..vocab {
            for j in 0..hidden {
                data[i * hidden + j] = 0.0;
            }
        }
        *lm_head = tensor(vec![vocab, hidden], data);
    }

    // Now generate. The model should immediately produce EOS (token 0),
    // and generation should stop.
    let output = engine.generate("a", 100);

    // The output should be just the prompt, since EOS was hit immediately
    // after prefill.
    assert_eq!(
        output, "a",
        "generation should stop at EOS and return only the prompt, got: {:?}",
        output
    );
}

#[test]
fn test_model_forward_single_token() {
    let mut model = make_test_model();
    let logits = model.forward(&[5], 0);
    assert_eq!(logits.shape(), &[1, VOCAB]);
    for &v in vals(&logits).iter() {
        assert!(v.is_finite(), "logit should be finite, got {}", v);
    }
}

#[test]
fn test_model_forward_multiple_tokens() {
    let mut model = make_test_model();
    let logits = model.forward(&[1, 2, 3], 0);
    assert_eq!(logits.shape(), &[3, VOCAB]);
    for &v in vals(&logits).iter() {
        assert!(v.is_finite(), "logit should be finite, got {}", v);
    }
}

#[test]
fn test_model_prefill_then_decode() {
    let mut model = make_test_model();

    // Prefill: 3 tokens
    let logits = model.forward(&[0, 5, 10], 0);
    assert_eq!(logits.shape(), &[3, VOCAB]);

    // Decode: 1 more token
    let logits = model.forward(&[15], 3);
    assert_eq!(logits.shape(), &[1, VOCAB]);

    for &v in vals(&logits).iter() {
        assert!(v.is_finite(), "decode logit should be finite, got {}", v);
    }
}

#[test]
fn test_model_different_tokens_different_logits() {
    let mut model1 = make_test_model();
    let mut model2 = make_test_model();

    let logits1 = model1.forward(&[0], 0);
    let logits2 = model2.forward(&[10], 0);

    let any_different = vals(&logits1)
        .iter()
        .zip(vals(&logits2).iter())
        .any(|(a, b)| (a - b).abs() > 1e-6);

    assert!(any_different, "different token IDs should produce different logits");
}

#[test]
fn test_kv_cache_populated_after_forward() {
    let mut model = make_test_model();
    let _ = model.forward(&[1, 2, 3], 0);

    for cache in model.kv_caches() {
        assert!(cache.key_cache.is_some(), "key cache should be populated after forward");
        assert!(cache.value_cache.is_some(), "value cache should be populated after forward");
        assert_eq!(cache.key_cache.as_ref().unwrap().shape()[0], 3);
    }
}

#[test]
fn test_kv_cache_cleared_after_reset() {
    let mut model = make_test_model();
    let _ = model.forward(&[1, 2], 0);
    model.reset_caches();

    for cache in model.kv_caches() {
        assert!(cache.key_cache.is_none(), "key cache should be None after reset");
        assert!(cache.value_cache.is_none(), "value cache should be None after reset");
    }
}

#[test]
fn test_engine_generate_nonempty() {
    let mut engine = make_test_engine();
    let output = engine.generate("a", 5);
    assert!(!output.is_empty(), "generate should produce non-empty output");
    assert!(output.starts_with('a'), "output should start with prompt");
}

#[test]
fn test_engine_generate_greedy_deterministic() {
    let config = choosing(0.0, 0, 1.0, None);
    let mut engine1 = make_test_engine_with_config(config.clone());
    let mut engine2 = make_test_engine_with_config(config);

    let out1 = engine1.generate("abc", 5);
    let out2 = engine2.generate("abc", 5);
    assert_eq!(out1, out2, "greedy generation should be deterministic");
}

#[test]
fn test_engine_generate_with_callback() {
    let config = choosing(0.0, 0, 1.0, Some(42));
    let mut engine = make_test_engine_with_config(config);

    let mut callback_count = 0;
    let output = engine.generate_with_callback("ab", 3, |_token_text| {
        callback_count += 1;
    });

    assert!(output.starts_with("ab"), "output should start with prompt");
    assert!(
        callback_count >= 1,
        "callback should be called at least once, was called {} times",
        callback_count
    );
}

#[test]
fn test_engine_reset_then_generate() {
    let config = choosing(0.0, 0, 1.0, Some(99));
    let mut engine = make_test_engine_with_config(config);

    let out1 = engine.generate("a", 3);
    engine.reset();
    let out2 = engine.generate("a", 3);

    assert_eq!(out1, out2, "generation after reset should match fresh generation");
}

#[test]
fn test_sample_from_model_logits() {
    let mut model = make_test_model();
    let logits = model.forward(&[1], 0);
    let last_row = logits.data();

    // Greedy sample should return a valid vocab index.
    let greedy_token = sample_greedy(last_row);
    assert!(greedy_token < VOCAB, "greedy token should be a valid vocab index");

    // Stochastic sample should also return a valid vocab index.
    let config = choosing(0.8, 10, 0.9, Some(42));
    let sampled_token = sample(last_row, &config, &mut 0);
    assert!(sampled_token < VOCAB, "sampled token should be a valid vocab index");
}

#[test]
fn test_integration_test_sample_deterministic_with_seed() {
    let mut model = make_test_model();
    let logits = model.forward(&[1], 0);
    let last_row = logits.data().to_vec();

    let config1 = choosing(0.7, 5, 0.9, Some(12345));
    let config2 = choosing(0.7, 5, 0.9, Some(12345));

    let t1 = sample(&last_row, &config1, &mut 0);
    let t2 = sample(&last_row, &config2, &mut 0);
    assert_eq!(t1, t2, "same seed should produce same sampled token");
}

#[test]
fn test_tokenizer_encode_decode_roundtrip() {
    let tokenizer = make_test_tokenizer();

    let texts = vec!["a", "ab", "cd", "abc"];
    for text in texts {
        let ids = tokenizer.encode(text);
        assert!(!ids.is_empty(), "encoding '{}' should produce token IDs", text);
        let decoded = tokenizer.decode(&ids);
        assert_eq!(decoded, text, "roundtrip failed for '{}': got '{:?}'", text, decoded);
    }
}

#[test]
fn test_tokenizer_eos_token_id() {
    let tokenizer = make_test_tokenizer();
    assert_eq!(tokenizer.eos_token_id(), 0, "EOS token ID should be 0");
}

#[test]
fn test_model_config_values() {
    let model = make_test_model();
    assert_eq!(model.vocab_size(), VOCAB);
    assert_eq!(model.kv_caches().len(), NUM_LAYERS);
}

fn config_json() -> String {
    format!(
        r#"{{
    "vocab_size": {VOCAB},
    "hidden_size": {HIDDEN},
    "num_hidden_layers": {NUM_LAYERS},
    "num_attention_heads": {NUM_HEADS},
    "num_key_value_heads": {NUM_KV_HEADS},
    "intermediate_size": {INTERMEDIATE},
    "max_position_embeddings": 64,
    "rms_norm_eps": 1e-6,
    "rope_theta": 10000.0,
    "hidden_act": "silu",
    "tie_word_embeddings": false
}}"#
    )
}

fn tokenizer_json() -> String {
    // We create a vocabulary where:
    //   ID 0 = <eos> (special token)
    //   IDs 1..26 = 'a'..'z'
    //   ID 27 = ' ' (space, stored as byte-level char Ġ)
    //   ID 28 = '!'
    //   ID 29 = 'ab' (merged)
    //   ID 30 = 'cd' (merged)
    //   ID 31 = Ġ (byte-level space character, needed for encoding)
    r#"{
    "version": "1.0",
    "added_tokens": [
        {"id": 0, "content": "<eos>", "single_word": false, "lstrip": false, "rstrip": false, "normalized": false, "special": true}
    ],
    "model": {
        "type": "BPE",
        "vocab": {
            "<eos>": 0,
            "a": 1,
            "b": 2,
            "c": 3,
            "d": 4,
            "e": 5,
            "f": 6,
            "g": 7,
            "h": 8,
            "i": 9,
            "j": 10,
            "k": 11,
            "l": 12,
            "m": 13,
            "n": 14,
            "o": 15,
            "p": 16,
            "q": 17,
            "r": 18,
            "s": 19,
            "t": 20,
            "u": 21,
            "v": 22,
            "w": 23,
            "x": 24,
            "y": 25,
            "z": 26,
            "Ġ": 27,
            "!": 28,
            "ab": 29,
            "cd": 30,
            "Ġa": 31
        },
        "merges": [
            "a b",
            "c d",
            "Ġ a"
        ]
    }
}"#
        .to_string()
}

fn load_engine(sampling: SamplingConfig<F>) -> InferenceEngine<F> {
    let tensors = weights_of(VOCAB, HIDDEN, KV_DIM, INTERMEDIATE);
    let model = load(config_from_json(&config_json()), &tensors).expect("loading should succeed");
    InferenceEngine::new(model, tokenizer_from_json(&tokenizer_json()), sampling)
}

#[test]
fn test_full_pipeline() {
    let sampling = choosing(0.0, 0, 1.0, Some(42));
    let mut engine = load_engine(sampling);

    // Encode a prompt.
    let token_ids = engine.tokenizer().encode("ab");
    assert!(!token_ids.is_empty(), "encoding 'ab' should produce token IDs");

    // Run a forward pass directly via the model.
    let logits = engine.model_mut().forward(&token_ids, 0);
    assert_eq!(logits.shape()[0], token_ids.len(), "logits seq_len should match prompt length");
    assert_eq!(logits.shape()[1], VOCAB, "logits vocab dim should be {}", VOCAB);
    for &v in vals(&logits).iter() {
        assert!(v.is_finite(), "all logits should be finite, got {}", v);
    }

    // Generate text.
    let output = engine.generate("ab", 5);
    assert!(!output.is_empty(), "generate should return non-empty output");
    assert!(
        output.starts_with("ab"),
        "output should start with the prompt text, got: {:?}",
        output
    );

    // Decode the generated portion should be non-empty and finite.
    // (The generated text is appended after the prompt in the output string.)
    if output.len() > 2 {
        // At least some tokens were generated beyond the prompt.
        let generated = &output[2..]; // strip "ab" prompt
        assert!(!generated.is_empty(), "generated portion should not be empty");
    }

    engine.reset();
}

#[test]
fn test_generate_with_callback() {
    let sampling = choosing(0.0, 0, 1.0, Some(42));
    let mut engine = load_engine(sampling);

    // Generate with callback, counting how many times it is invoked.
    let mut callback_count = 0usize;
    let output = engine.generate_with_callback("a", 5, |_token_text| {
        callback_count += 1;
    });

    // The output should start with the prompt.
    assert!(
        output.starts_with('a'),
        "output should start with prompt, got: {:?}",
        output
    );

    // The callback should have been called at least once (unless EOS was
    // hit immediately, which is very unlikely with our random-ish weights).
    assert!(
        callback_count >= 1,
        "callback should be called at least once, was called {} times",
        callback_count
    );

    // The generated portion should be non-empty and finite.
    let generated = &output[1..]; // strip the "a" prompt
    if !generated.is_empty() {
        for ch in generated.chars() {
            assert!(
                !ch.is_control() || ch == '\n' || ch == '\t',
                "generated text should not contain control characters"
            );
        }
    }
}

#[test]
fn test_reset_and_regenerate() {
    let sampling = choosing(0.0, 0, 1.0, Some(42));
    let mut engine = load_engine(sampling);

    // First generation to populate KV caches.
    let output1 = engine.generate("a", 3);
    assert!(!output1.is_empty(), "first generation should produce output");

    // Reset caches.
    engine.reset();

    // Second generation should still work after reset.
    let output2 = engine.generate("a", 3);
    assert!(!output2.is_empty(), "generation after reset should produce output");
    assert!(
        output2.starts_with('a'),
        "second output should start with prompt, got: {:?}",
        output2
    );

    // With greedy decoding and the same prompt, the output should be
    // deterministic (identical across two fresh-slate generations).
    assert_eq!(
        output1, output2,
        "greedy generation should be deterministic after reset"
    );
}

#[test]
fn test_generated_tokens_in_vocab_range() {
    let sampling = choosing(0.0, 0, 1.0, Some(42));
    let mut engine = load_engine(sampling);

    // Encode and do a forward pass manually, checking logits range.
    let token_ids = engine.tokenizer().encode("abc");
    let logits = engine.model_mut().forward(&token_ids, 0);

    // All logits should be finite.
    for &v in vals(&logits).iter() {
        assert!(v.is_finite(), "logits should be finite, got {}", v);
    }

    // The argmax of the last position should be a valid vocab index.
    let vocab_size = logits.shape()[1];
    let last_row_start = (logits.shape()[0] - 1) * vocab_size;
    let last_row = &vals(&logits)[last_row_start..last_row_start + vocab_size];
    let max_idx = last_row
        .iter()
        .enumerate()
        .max_by(|(_, a), (_, b)| a.partial_cmp(b).unwrap())
        .unwrap()
        .0;
    assert!(
        max_idx < VOCAB,
        "argmax of logits should be a valid vocab index, got {}",
        max_idx
    );
}

#[test]
fn every_missing_weight_is_named() {
    let all = weights_of(8, 4, 2, 8);
    for skipped in 0..all.len() {
        let mut tensors = all.clone();
        let (name, _, _) = tensors.remove(skipped);
        let message = match load(small_config(8, 4, false), &tensors) {
            Ok(_) => panic!("{} is missing", name),
            Err(e) => e.message(),
        };
        assert_eq!(message, format!("Missing weight: {}", name));
    }
}

#[test]
fn a_missing_weight_is_found_before_layers_are_built() {
    let tensors = weights_of(8, 4, 2, 8);
    let all = read_safetensors_as_tensors::<F>(&file_of(&tensors)).unwrap();
    let few = read_safetensors_as_tensors::<F>(&file_of(&tensors[..1])).unwrap();
    let mut config = small_config(8, 4, false);
    assert!(QwenModel::first_layer_problem(&config, &all).is_none());
    let missing = "Missing weight: model.layers.0.input_layernorm.weight";
    config.head_dim = Some(1);
    let problem = QwenModel::first_layer_problem(&config, &few).map(|e| e.message());
    assert_eq!(problem, Some(missing.to_string()));
    let error = QwenModel::from_weights(config, &few).err().map(|e| e.message());
    assert_eq!(error, Some(missing.to_string()));
}

#[test]
fn loaded_norms_of_heads_are_used() {
    let mut tensors = weights_of(8, 4, 2, 8);
    let mut plain = load(small_config(8, 4, false), &tensors).unwrap();
    for part in ["q_norm", "k_norm"] {
        tensors.push((
            format!("model.layers.0.self_attn.{}.weight", part),
            vec![2],
            vec![3.0, 0.5],
        ));
    }
    let mut normed = load(small_config(8, 4, false), &tensors).unwrap();
    let a = plain.forward(&[1, 2], 0);
    let b = normed.forward(&[1, 2], 0);
    assert_eq!(a.shape(), b.shape());
    assert_ne!(vals(&a), vals(&b));
}

#[test]
fn a_tied_model_uses_the_embedding_table_and_no_projection_of_its_own() {
    let tensors = weights_of(8, 4, 2, 8);
    let mut tied = load(small_config(8, 4, true), &tensors[..11]).unwrap();
    let mut own = load(small_config(8, 4, false), &tensors).unwrap();
    assert_ne!(vals(&tied.forward(&[1], 0)), vals(&own.forward(&[1], 0)));
    let mut both = load(small_config(8, 4, true), &tensors).unwrap();
    tied.reset_caches();
    assert_eq!(vals(&both.forward(&[1], 0)), vals(&tied.forward(&[1], 0)));
}

#[test]
fn loading_and_building_give_the_same_model() {
    let tensors = weights_of(VOCAB, HIDDEN, KV_DIM, INTERMEDIATE);
    let mut loaded = load(config_from_json(&config_json()), &tensors).unwrap();
    let mut built = make_test_model();
    assert_eq!(vals(&loaded.forward(&[4, 9, 2], 0)), vals(&built.forward(&[4, 9, 2], 0)));
}

#[test]
fn decoding_continues_a_prefill() {
    let mut at_once = make_test_model();
    let whole = at_once.forward(&[3, 1, 4], 0);
    let mut stepwise = make_test_model();
    stepwise.forward(&[3, 1], 0);
    let last = stepwise.forward(&[4], 2);
    assert_eq!(vals(&last), vals(&whole.row(2)));
}

#[test]
fn passing_in_parts_gives_what_one_pass_gives() {
    let tokens = [3, 1, 4, 1, 5];
    let mut at_once = make_test_model();
    let whole = at_once.forward(&tokens, 0);
    for cut in 1..tokens.len() {
        let mut in_parts = make_test_model();
        let mut rows = vals(&in_parts.forward(&tokens[..cut], 0));
        rows.extend(vals(&in_parts.forward(&tokens[cut..], cut)));
        assert_eq!(rows, vals(&whole));
        assert_eq!(in_parts.cached(), tokens.len());
        for (a, b) in in_parts.kv_caches().iter().zip(at_once.kv_caches()) {
            assert_eq!(a.key_cache.as_ref().map(vals), b.key_cache.as_ref().map(vals));
            assert_eq!(a.value_cache.as_ref().map(vals), b.value_cache.as_ref().map(vals));
        }
    }
}

#[test]
fn resetting_forgets() {
    let mut model = make_test_model();
    let fresh = model.forward(&[7], 0);
    model.reset_caches();
    model.forward(&[20], 0);
    let used = model.forward(&[7], 1);
    assert_ne!(vals(&fresh), vals(&used));
    model.reset_caches();
    let again = model.forward(&[7], 0);
    assert_eq!(vals(&fresh), vals(&again));
}

#[test]
fn a_model_knows_the_tokens_of_its_vocabulary() {
    let model = make_test_model();
    assert!(model.knows(&[0, 31]));
    assert!(!model.knows(&[0, 32]));
    assert!(model.has_room(3, 4));
    assert!(!model.has_room(60, 5));
    assert!(model.accepts(1, 63));
    assert!(!model.accepts(1, 64));
    assert!(!model.accepts(0, 0));
}

#[test]
fn a_lower_limit_gives_a_prefix() {
    let mut long = make_test_engine_with_config(choosing(0.0, 0, 1.0, None));
    let mut short = make_test_engine_with_config(choosing(0.0, 0, 1.0, None));
    let more = long.generate("abc", 6);
    let less = short.generate("abc", 2);
    assert!(more.starts_with(&less));
    assert!(more.len() > less.len());
}

#[test]
fn no_tokens_give_the_prompt_back() {
    let mut engine = make_test_engine();
    assert_eq!(engine.generate("ab", 0), "ab");
    assert_eq!(engine.generate("", 5), "");
}

#[test]
fn the_callback_sees_the_pieces_of_the_answer() {
    let mut engine = make_test_engine_with_config(choosing(0.0, 0, 1.0, None));
    let mut said = String::new();
    let output = engine.generate_with_callback("ab", 4, |piece| said.push_str(piece));
    assert_eq!(output, format!("ab{}", said));
}

#[test]
fn stepping_gives_the_same_pieces_in_order() {
    let chosen = choosing(0.0, 0, 1.0, None);
    let mut engine = make_test_engine_with_config(chosen.clone());
    let mut told = Vec::new();
    engine.generate_with_callback("ab", 4, |piece| told.push(piece.to_string()));
    assert_eq!(told.len(), 4);

    let mut stepping = make_test_engine_with_config(chosen);
    let mut turn = stepping.begin("ab", 4).unwrap();
    for piece in told {
        match stepping.advance(&mut turn) {
            Progress::Piece(text) => assert_eq!(text, piece),
            _ => panic!("a piece was expected"),
        }
    }
    assert!(matches!(stepping.advance(&mut turn), Progress::Finished));
    let rows = stepping.model().kv_caches()[0].rows();
    assert_eq!(rows, engine.model().kv_caches()[0].rows());
    assert_eq!(rows, stepping.tokenizer().encode("ab").len() + 4);

    let mut nothing = stepping.begin("", 4).unwrap();
    assert!(matches!(stepping.advance(&mut nothing), Progress::Finished));
    let mut long = stepping.begin(&"a!".repeat(40), 4).unwrap();
    assert!(matches!(stepping.advance(&mut long), Progress::NoRoom));
}

#[test]
fn the_conversation_is_remembered_until_a_reset() {
    let chosen = choosing(0.0, 0, 1.0, None);
    let mut engine = make_test_engine_with_config(chosen.clone());
    let first = engine.generate("c", 3);
    let said: Vec<usize> = engine.tokenizer().encode("c");
    let seen = engine.model().cached();
    assert_eq!(seen, said.len() + 3);
    engine.generate("d", 0);
    assert_eq!(engine.model().cached(), seen + 1);
    let remembered = engine.model().kv_caches()[0].key_cache.as_ref().map(vals);

    // The same tokens in one model, passed through it one after the other.
    let mut apart = make_test_engine_with_config(chosen.clone());
    let mut turn = apart.begin("c", 3).unwrap();
    let mut text = "c".to_string();
    while let Progress::Piece(piece) = apart.advance(&mut turn) {
        text.push_str(&piece);
    }
    assert_eq!(text, first);
    let next = apart.tokenizer().encode("d");
    apart.model_mut().forward(&next, seen);
    let fed = apart.model().kv_caches()[0].key_cache.as_ref().map(vals);
    assert_eq!(remembered, fed);

    engine.reset();
    assert_eq!(engine.model().cached(), 0);
    assert_eq!(engine.generate("c", 3), first);
}

#[test]
fn the_next_prompt_is_answered_in_context() {
    let mut engine = make_test_engine_with_config(choosing(0.0, 0, 1.0, None));
    let first = engine.tokenizer().encode("c");
    let second = engine.tokenizer().encode("d");

    // The conversation token by token, without the engine.
    let mut model = make_test_model();
    let mut all = first.clone();
    let mut logits = model.forward(&first, 0);
    for _ in 0..3 {
        let token = sample_greedy(logits.row(logits.shape()[0] - 1).data());
        assert_ne!(token, engine.eos_token_id());
        logits = model.forward(&[token], all.len());
        all.push(token);
    }
    all.extend(second);

    engine.generate("c", 3);
    let answer = engine.generate("d", 4);
    let mut expected = "d".to_string();
    for _ in 0..4 {
        let whole = make_test_model().forward(&all, 0);
        let token = sample_greedy(whole.row(all.len() - 1).data());
        if token == engine.eos_token_id() {
            break;
        }
        expected.push_str(&engine.tokenizer().decode(&[token]));
        all.push(token);
    }
    assert_eq!(answer, expected);
}

#[test]
fn without_a_seed_the_choices_follow_the_count() {
    let chosen = choosing(1.0, 0, 1.0, None);
    let mut one = make_test_engine_with_config(chosen.clone());
    let mut other = make_test_engine_with_config(chosen);
    let first = one.generate("a", 8);
    assert_eq!(other.generate("a", 8), first);
    one.reset();
    let later = one.generate("a", 8);
    other.reset();
    other.count_from(0);
    assert_eq!(other.generate("a", 8), first);
    other.reset();
    other.count_from(u64::MAX);
    assert_eq!(other.generate("a", 8), first);
    assert_ne!(later, first);
}

#[test]
fn a_model_with_more_logits_than_rows_stops_at_a_token_it_does_not_know() {
    let mut engine = make_test_engine_with_config(choosing(0.0, 0, 1.0, None));
    let wide: Vec<F> = (0..(VOCAB + 4) * HIDDEN)
        .map(|i| F(if i / HIDDEN < VOCAB { 0.0 } else { 1.0 }))
        .collect();
    *engine.model_mut().lm_head_mut() = Tensor::new(vec![VOCAB + 4, HIDDEN], wide);
    assert!(!engine.has_room_for("a", 1));
    assert!(engine.has_room_for("a", 0));
    assert_eq!(engine.try_generate_with_callback("a", 0, |_| {}), Some("a".to_string()));
}

#[test]
fn generating_stops_without_room() {
    let mut engine = make_test_engine_with_config(choosing(0.0, 0, 1.0, None));
    assert!(engine.has_room_for("ab", 5));
    assert!(!engine.has_room_for("ab", 64));
    let mut pieces = 0;
    assert_eq!(engine.try_generate_with_callback("ab", 64, |_| pieces += 1), None);
    assert_eq!(pieces, 64);
    engine.reset();
    let answer = engine.try_generate_with_callback("ab", 5, |_| {});
    let mut other = make_test_engine_with_config(choosing(0.0, 0, 1.0, None));
    assert_eq!(answer, Some(other.generate("ab", 5)));
}

#[test]
fn a_token_that_the_model_does_not_know_is_refused() {
    let vocab = vec![("a".to_string(), 40), ("b".to_string(), 1)];
    let tokenizer = Tokenizer::from_parts(vocab, None, None);
    let mut engine = InferenceEngine::new(make_test_model(), tokenizer, SamplingConfig::default());
    assert!(!engine.has_room_for("a", 1));
    assert_eq!(engine.try_generate_with_callback("ba", 1, |_| {}), None);
    assert!(engine.model().kv_caches()[0].key_cache.is_none());
    assert!(engine.try_generate_with_callback("b", 1, |_| {}).is_some());
}

#[test]
fn generating_keeps_the_weights() {
    let mut engine = make_test_engine_with_config(choosing(0.8, 10, 0.9, Some(3)));
    let first = engine.generate("a", 4);
    engine.reset();
    assert_eq!(engine.generate("a", 4), first);
    assert_eq!(engine.model().vocab_size(), VOCAB);
    assert_eq!(engine.tokenizer().vocab_size(), 32);
}
