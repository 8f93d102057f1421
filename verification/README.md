# requant

MoE-aware requantization of model files: GGUF containers, safetensors checkpoints, importance
matrices, logit captures, and the plans that turn one into another.

`src/` is a library verified with [Verus](https://github.com/verus-lang/verus). Every function
states what it returns for every input it takes, and Verus proves it. Laws that hold of several
functions together are public proof functions named `law_*`.

| module | what it does |
|---|---|
| `bytes`, `words`, `text`, `names`, `order`, `rounding`, `tally` | little-endian numbers, texts, ordered maps, a stable sort, decimal rounding, tallies |
| `minifloat`, `floats`, `blockfloat` | half, bfloat, FP8, FP4 and E8M0 codes, and the factors of block-scaled elements |
| `gguf` | container values, tensor geometry, reader, writer, streaming |
| `json`, `safetensors` | documents, checkpoint headers, shards, indices, quantized linears |
| `ir`, `inspect`, `common` | roles of tensors, summaries, sizes as texts |
| `imatrix` | importance matrices |
| `quantize`, `search` | what happens to each tensor, the file that comes out, the parts of a search |
| `logits`, `kl`, `perplexity`, `evaluator`, `sensitivity` | captures, quantiles, reports, references, ablation groups, candidates and tables |
| `moefy`, `pack` | dense to mixture-of-experts conversion, inference packs |

Floating-point numbers are held by their bits. Sums, products and exponentials of them are left to
the caller.

What is believed rather than proved stands in `json` (reading and writing with `serde_json`) and in
`text` (`std::str::from_utf8`, `String::push`); each such item says so in its comment.

`app/` is the command-line program around the library: arguments, files, processes, floating point,
and the calls into the kernels, the recipe language and the allocator (`requant_quant`,
`requant_search`), which are crates of their own. `tests/` holds the tests of the library.
