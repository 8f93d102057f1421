//! The GGUF container: typed key/value metadata, tensor headers and packed tensor data.
//!
//! A file is `"GGUF" | version u32 | n_tensors u64 | n_kv u64`, the key/value pairs, the tensor
//! headers, padding to the alignment, and the tensor data, each tensor padded to the alignment.
//! All numbers are little-endian. A string is its UTF-8 length as `u64` and the bytes; an array is
//! an element type, a length as `u64` and the bare values. The dimensions of a tensor are stored
//! innermost first and held outermost first.
pub mod format;
pub mod geometry;
pub mod laws;
pub mod reader;
pub mod sizes;
pub mod stream;
pub mod value;
pub mod writer;
