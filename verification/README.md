# llm_engine

The verified core of an engine that serves large language models: it reads
model files and configurations, builds the graph of operations that a model
runs, plans the KV cache and the placing of weights, turns conversations into
prompts, decides what a server answers, and coordinates a cluster. The functions
in `src/` state what they do in `requires` and `ensures`, and Verus proves it; of
a random number, nothing is stated but what the library makes of it.

Numbers in floating point are carried by their bits. What computes with them,
and what reads files, talks to the network or runs tensors, is in `app/`.

- `src/loader`: GGUF and safetensors files, and packed AWQ, GPTQ and MLX weights.
- `src/model`, `src/metadata.rs`: model configurations.
- `src/graph`: tensor names and the graph of operations.
- `src/backends`: what a backend decides while it loads and runs a model.
- `src/chat`, `src/conv_template.rs`, `src/tokenizer.rs`: prompts, tokens, the
  server and the console.
- `src/tokenizer_doc.rs`, `src/charsmap.rs`, `src/chat/template.rs`: which
  tokenizer files and chat templates can be used.
- `src/calendar.rs`: days and dates.
- `src/cluster`: sharing a model between machines.
- `src/pull.rs`, `src/profile.rs`: choosing a model for a machine.
- `src/sampler.rs`, `src/floats.rs`: choosing the next token.
- `src/ffi.rs`: what the C interface decides.
- `tests`: the library's tests.
- `app`: the command line program around the library.

Functions named `law_...` state what holds of several functions together. What is
believed without proof carries a comment that begins with `Trusted:`.
