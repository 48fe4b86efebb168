# synapse_inference

Verified building blocks of a model inference engine: decoder-only language
models, hybrid state-space models, text encoders and vision and world models.

- `src/` is the library. Numbers are a type parameter `T: Scalar`, and the
  functions of real numbers come from `Math<T>`; every contract is stated over
  the results of those operations, in the order in which they are applied.
- `src/ops.rs`, `norm.rs`, `rope.rs`, `attention.rs`, `patch.rs` and `gelu.rs`
  hold the operations, `kv_cache.rs` the key-value cache, `weights.rs` the
  loading of checkpoints, `json.rs` the reading of configuration files.
- `src/models/` holds the models. `lm/dispatch.rs` runs a language model on a
  `ComputeBackend`, `vision/lewm_device.rs` a world model on a
  `PredictorDevice`.
- `app/` is ordinary Rust around the library: single precision arithmetic, the
  files that configurations come from, and checkpoints held in hash maps.
- `tests/` runs the library on `f32`.

Laws that relate several functions are public proof functions whose names begin
with `lemma_`.
