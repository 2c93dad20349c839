# tensor_shards

A verified library for sharding the weights of a large language model over the GPUs of several
ranks.

* `src/utils` holds the index of a model's tensors (`tensor_index`, `index_files`), the form in
  which the index travels to other ranks (`index_wire`, `framing`), the buffers of each rank, and
  the copies and casts that fill them (`weight_loader`, `transfer`, `convert`). What is laid out as
  steps is done in turn, until a step fails (`run`).
* `src/models` lays out a DeepSeek model (`deepseek3`, `causal_lm`) and says which part of it is to
  be run next (`layer_forward`, `forward`).
* `index_laws`, `load_laws` and `shards` state what holds across these: that the parts of all ranks
  make up the whole tensor, that a cast makes no difference to which elements a rank gets, that
  every buffer is filled from the file that holds its tensor, that all ranks go through the same
  steps but that only the first looks at files, and that a rank receives the index that the root sent.
* `app` is the ordinary Rust around the library: files, the CUDA driver, NCCL, and the parts of a
  model.

What the library takes on trust of candle is in `src/utils/tensor.rs`; what it takes on trust of
bincode is in `src/utils/index_wire.rs`.
