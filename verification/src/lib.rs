//! Quantized model containers, tensor roles and conversion plans.
pub mod blockfloat;
pub mod bytes;
pub mod common;
pub mod evaluator;
pub mod floats;
pub mod gguf;
pub mod imatrix;
pub mod inspect;
pub mod ir;
pub mod json;
pub mod kl;
pub mod logits;
pub mod minifloat;
pub mod moefy;
pub mod names;
pub mod order;
pub mod pack;
pub mod perplexity;
pub mod quantize;
pub mod rounding;
pub mod safetensors;
pub mod search;
pub mod sensitivity;
pub mod tally;
pub mod text;
pub mod words;
