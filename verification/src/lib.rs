//! Inference for Qwen3 models: tokenizer, tensors, transformer, sampling and the
//! files that a model comes in.
pub mod attention;
pub mod bpe;
pub mod byte_level;
pub mod cache_laws;
pub mod chat;
pub mod config;
pub mod conversation;
pub mod exponents;
pub mod ffn;
pub mod gathering;
pub mod half;
pub mod heads;
pub mod index;
pub mod inference;
pub mod json;
pub mod launch;
pub mod load;
pub mod mask_laws;
pub mod matrix;
pub mod model;
pub mod parts;
pub mod passes;
pub mod powers;
pub mod period;
pub mod pointwise;
pub mod pretokenize;
pub mod ranking;
pub mod rmsnorm;
pub mod rope;
pub mod roundtrip;
pub mod safetensors;
pub mod sampling;
pub mod scalar;
pub mod softmax;
pub mod tensor;
pub mod text;
pub mod tokenizer;
pub mod transformer_block;
