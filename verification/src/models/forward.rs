//! Running a model. The parts of a model are run elsewhere, one at a time: each step here says
//! which part is next and on what, and takes what came out of it.

use crate::models::causal_lm::DeepSeekForCausalLM;
use crate::utils::error::ShardError;
use crate::utils::tensor;
use candle_core::{DType, Tensor};
use vstd::prelude::*;

verus! {

/// What is known of the tokens that are sent through a model.
#[derive(Debug)]
pub struct InputMetadata {
    pub is_prefill: bool,
    /// Where each sequence ends.
    pub seqlens: Option<Vec<u32>>,
}

/// What is to be known of the mask that keeps tokens from seeing others.
#[derive(Debug)]
pub struct MaskBuild {
    pub dtype: DType,
    /// Where each sequence ends.
    pub seqlens: Vec<u32>,
    pub sliding_window: Option<usize>,
    pub is_prefill: bool,
}

/// The part of a model that is to be run next, on `xs`.
#[derive(Debug)]
pub enum ModelCall {
    Layer { idx: usize, xs: Tensor },
    Norm { xs: Tensor },
    LmHead { xs: Tensor },
    Done { xs: Tensor },
}

/// Where the sequences end; nothing is known of a model that is run on single tokens.
pub open spec fn seqlens_of(meta: InputMetadata) -> Seq<u32> {
    match meta.seqlens {
        Some(v) => v@,
        None => Seq::empty(),
    }
}

/// How many layers are run: those that there is a cache for, and none without caches.
pub open spec fn layers_run(model: DeepSeekForCausalLM, n_caches: Option<usize>) -> nat {
    match n_caches {
        Some(n) => if n <= model.layers@.len() {
            n as nat
        } else {
            model.layers@.len()
        },
        None => 0,
    }
}

/// `c` holds what `t` holds, in another type.
pub open spec fn is_cast_of(t: Tensor, dtype: DType, c: Tensor) -> bool {
    let from = tensor::tensor_dtype(t);
    let dims = tensor::tensor_dims(t);
    if from == dtype {
        c == t
    } else {
        &&& tensor::is_fresh(c, dims, dtype, tensor::tensor_on_cpu(t))
        &&& tensor::computes(from)
        &&& tensor::computes(dtype)
        &&& exists|b: Seq<u8>| #[trigger]
            tensor::held(t, b) && tensor::is_cast(
                from,
                dtype,
                tensor::elem_count(dims),
                b,
                tensor::made_bytes(c),
            )
    }
}

/// What casting a tensor comes to.
pub open spec fn cast_outcome(t: Tensor, dtype: DType, r: Option<Tensor>) -> bool {
    &&& tensor::tensor_dtype(t) == dtype ==> r is Some
    &&& tensor::tensor_on_cpu(t) && tensor::computes(tensor::tensor_dtype(t)) && tensor::computes(
        dtype,
    ) ==> r is Some
    &&& r matches Some(c) ==> is_cast_of(t, dtype, c)
}

/// `x` holds, for each number that `ids` holds, the row of a table that it names. In host memory
/// the greatest number of its type stands for a row of zeros.
pub open spec fn is_lookup(table: Tensor, hidden_size: usize, ids: Tensor, x: Tensor) -> bool {
    let limit = tensor::index_limit(tensor::tensor_dtype(ids));
    let n = tensor::elem_count(tensor::tensor_dims(ids));
    let step = tensor::row_size(table);
    &&& tensor::is_fresh(
        x,
        tensor::tensor_dims(ids).push(hidden_size),
        tensor::tensor_dtype(table),
        tensor::tensor_on_cpu(table),
    )
    &&& tensor::computes(tensor::tensor_dtype(table)) && limit is Some ==> exists|
        v: Seq<int>,
        b: Seq<u8>,
    |
        #![trigger tensor::held_ints(ids, v), tensor::held(table, b)]
        {
            &&& tensor::held_ints(ids, v)
            &&& tensor::held(table, b)
            &&& tensor::rows_looked_up(
                tensor::made_bytes(x),
                b,
                step,
                tensor::tensor_dims(table)[0],
                v,
                n,
                limit->0,
            )
            &&& tensor::tensor_on_cpu(table) ==> forall|i: int|
                0 <= i < n && #[trigger] v[i] == limit->0 ==> tensor::piece(
                    tensor::made_bytes(x),
                    step,
                    i,
                ) == tensor::zero_bytes(step)
        }
}

/// The type of what a model makes of tokens: full precision, if weights are packed or were
/// quantized.
pub open spec fn embedded_dtype(model: DeepSeekForCausalLM) -> DType {
    if model.is_qvar_builder || model.quantized {
        DType::F32
    } else {
        tensor::tensor_dtype(model.embed_tokens)
    }
}

/// Tokens can be looked up: the sizes can be counted, before and after a cast.
pub open spec fn embed_defined(model: DeepSeekForCausalLM, ids: Tensor) -> bool {
    &&& tensor::embeddable(model.embed_tokens, model.hidden_size, ids)
    &&& tensor::countable(
        tensor::tensor_dims(ids).push(model.hidden_size),
        tensor::elem_size(embedded_dtype(model)),
    )
}

/// Each number that `ids` holds names a row of a table, or is the greatest of its type.
pub open spec fn all_known(table: Tensor, ids: Tensor, v: Seq<int>) -> bool {
    tensor::all_rows_exist(
        v,
        tensor::elem_count(tensor::tensor_dims(ids)),
        tensor::tensor_dims(table)[0],
        tensor::index_limit(tensor::tensor_dtype(ids))->0,
    )
}

/// What looking up tokens comes to. In host memory it comes to nothing where the numbers of tokens
/// have a type that is no index or where a token is unknown, and else to something for a table
/// with a row of the right length for each token, that lies row by row and has an element type
/// that candle computes with.
pub open spec fn embed_outcome(model: DeepSeekForCausalLM, ids: Tensor, r: Option<Tensor>) -> bool {
    let table = model.embed_tokens;
    let dims = tensor::tensor_dims(table);
    let on_cpu = tensor::tensor_on_cpu(table) && tensor::tensor_on_cpu(ids);
    let is_index = tensor::index_limit(tensor::tensor_dtype(ids)) is Some;
    &&& on_cpu && !is_index ==> r is None
    &&& on_cpu && is_index && dims.len() > 0 && (forall|v: Seq<int>| #[trigger]
        tensor::held_ints(ids, v) ==> !all_known(table, ids, v)) ==> r is None
    &&& on_cpu && is_index && dims.len() == 2 && dims[1] == model.hidden_size && tensor::by_rows(
        table,
    ) && tensor::computes(tensor::tensor_dtype(table)) && (forall|v: Seq<int>| #[trigger]
        tensor::held_ints(ids, v) ==> all_known(table, ids, v)) ==> r is Some
    &&& r matches Some(x) ==> exists|e: Tensor| #[trigger]
        is_lookup(table, model.hidden_size, ids, e) && is_cast_of(e, embedded_dtype(model), x)
}

/// The last rows of the sequences can be picked: every sequence has one, their size can be
/// counted, and a tensor without elements starts where its storage does.
pub open spec fn pick_defined(
    dims: Seq<usize>,
    dtype: DType,
    start: usize,
    seqlens: Seq<u32>,
) -> bool {
    &&& forall|i: int| 0 <= i < seqlens.len() ==> #[trigger] seqlens[i] >= 1
    &&& seqlens.len() > 0 && tensor::is_empty(dims) ==> start == 0
    &&& seqlens.len() > 0 && dims.len() > 0 ==> tensor::countable(
        dims.update(0, seqlens.len() as usize),
        tensor::elem_size(dtype),
    )
}

/// `y` holds the last row of each sequence of what `xs` holds, where there is such a row.
pub open spec fn is_picked(xs: Tensor, seqlens: Seq<u32>, y: Tensor) -> bool {
    let dims = tensor::tensor_dims(xs);
    &&& tensor::is_fresh(
        y,
        dims.update(0, seqlens.len() as usize),
        tensor::tensor_dtype(xs),
        tensor::tensor_on_cpu(xs),
    )
    &&& tensor::computes(tensor::tensor_dtype(xs)) ==> exists|b: Seq<u8>| #[trigger]
        tensor::held(xs, b) && forall|i: int|
            0 <= i < seqlens.len() && #[trigger] seqlens[i] <= dims[0] ==> tensor::piece(
                tensor::made_bytes(y),
                tensor::row_size(xs),
                i,
            ) == tensor::piece(b, tensor::row_size(xs), seqlens[i] - 1)
}

/// What picking the last row of each sequence comes to; without sequences everything stays. In
/// host memory it comes to something exactly for a tensor that lies row by row, of a type that
/// candle computes with, and that has all of these rows.
pub open spec fn pick_outcome(xs: Tensor, seqlens: Seq<u32>, r: Option<Tensor>) -> bool {
    if seqlens.len() == 0 {
        r == Some(xs)
    } else {
        let dims = tensor::tensor_dims(xs);
        &&& dims.len() == 0 ==> r is None
        &&& dims.len() > 0 && tensor::tensor_on_cpu(xs) ==> (r is Some <==> {
            &&& tensor::by_rows(xs)
            &&& tensor::computes(tensor::tensor_dtype(xs))
            &&& forall|i: int| 0 <= i < seqlens.len() ==> #[trigger] seqlens[i] <= dims[0]
        })
        &&& r matches Some(y) ==> is_picked(xs, seqlens, y)
    }
}

/// Picks the last row of each sequence.
pub fn last_rows(xs: Tensor, seqlens: &[u32]) -> (r: Result<Tensor, ShardError>)
    requires
        pick_defined(
            tensor::tensor_dims(xs),
            tensor::tensor_dtype(xs),
            tensor::tensor_start(xs),
            seqlens@,
        ),
    ensures
        pick_outcome(xs, seqlens@, r.ok()),
        r is Err ==> r->Err_0 is Candle,
{
    if seqlens.len() == 0 {
        return Ok(xs);
    }
    let mut rows: Vec<u32> = Vec::new();
    let mut i: usize = 0;
    while i < seqlens.len()
        invariant
            i <= seqlens@.len(),
            forall|k: int| 0 <= k < seqlens@.len() ==> #[trigger] seqlens@[k] >= 1,
            rows@.len() == i,
            forall|k: int| 0 <= k < i ==> #[trigger] rows@[k] == seqlens@[k] - 1,
        decreases seqlens@.len() - i,
    {
        rows.push(seqlens[i] - 1);
        i = i + 1;
    }
    let ghost dims = tensor::tensor_dims(xs);
    let ghost n = seqlens@.len();
    let ghost picked = rows@;
    proof {
        if dims.len() > 0 {
            let exist = forall|k: int|
                0 <= k < n ==> (#[trigger] picked[k] < dims[0] || picked[k] == u32::MAX);
            let reached = forall|k: int| 0 <= k < n ==> #[trigger] seqlens@[k] <= dims[0];
            if exist {
                assert forall|k: int| 0 <= k < n implies #[trigger] seqlens@[k] <= dims[0] by {
                    assert(picked[k] == seqlens@[k] - 1);
                }
            }
            if reached {
                assert forall|k: int| 0 <= k < n implies (#[trigger] picked[k] < dims[0]
                    || picked[k] == u32::MAX) by {
                    assert(seqlens@[k] <= dims[0]);
                }
            }
            assert(exist == reached);
        }
    }
    match tensor::index_select(&xs, rows) {
        Ok(y) => {
            proof {
                if tensor::computes(tensor::tensor_dtype(xs)) {
                    let step = tensor::row_size(xs);
                    let b = choose|b: Seq<u8>| #[trigger]
                        tensor::held(xs, b) && forall|k: int|
                            0 <= k < n && #[trigger] picked[k] < dims[0] && picked[k] != u32::MAX
                                ==> tensor::piece(tensor::made_bytes(y), step, k) == tensor::piece(
                                b,
                                step,
                                picked[k] as int,
                            );
                    assert forall|k: int|
                        0 <= k < n && #[trigger] seqlens@[k] <= dims[0] implies tensor::piece(
                        tensor::made_bytes(y),
                        step,
                        k,
                    ) == tensor::piece(b, step, seqlens@[k] - 1) by {
                        assert(picked[k] == seqlens@[k] - 1);
                    }
                }
                assert(is_picked(xs, seqlens@, y));
            }
            Ok(y)
        },
        Err(e) => Err(ShardError::Candle(e)),
    }
}

/// A model can be started: tokens can be looked up, and where no layer is run, the last rows of
/// what comes of it can be picked.
pub open spec fn start_defined(
    model: DeepSeekForCausalLM,
    input: Tensor,
    n_caches: Option<usize>,
    meta: InputMetadata,
    embeded_inputs: bool,
) -> bool {
    &&& !embeded_inputs ==> embed_defined(model, input)
    &&& layers_run(model, n_caches) == 0 ==> if embeded_inputs {
        pick_defined(
            tensor::tensor_dims(input),
            tensor::tensor_dtype(input),
            tensor::tensor_start(input),
            seqlens_of(meta),
        )
    } else {
        pick_defined(
            tensor::tensor_dims(input).push(model.hidden_size),
            embedded_dtype(model),
            0,
            seqlens_of(meta),
        )
    }
}

/// What is next once `idx` layers have been run and `xs` has come out of them: the next layer,
/// or, behind all layers, the norm on the last row of each sequence.
pub open spec fn is_next(
    model: DeepSeekForCausalLM,
    idx: nat,
    xs: Tensor,
    n_caches: Option<usize>,
    meta: InputMetadata,
    r: Option<ModelCall>,
) -> bool {
    if idx < layers_run(model, n_caches) {
        r == Some(ModelCall::Layer { idx: idx as usize, xs })
    } else {
        &&& r is Some ==> r->0 is Norm
        &&& pick_outcome(
            xs,
            seqlens_of(meta),
            match r {
                Some(ModelCall::Norm { xs: y }) => Some(y),
                _ => None,
            },
        )
    }
}

/// How a model starts on its input.
pub open spec fn is_start(
    model: DeepSeekForCausalLM,
    input: Tensor,
    n_caches: Option<usize>,
    meta: InputMetadata,
    embeded_inputs: bool,
    r: Option<ModelCall>,
) -> bool {
    if embeded_inputs {
        is_next(model, 0, input, n_caches, meta, r)
    } else {
        exists|x: Option<Tensor>| #[trigger]
            embed_outcome(model, input, x) && match x {
                Some(xs) => is_next(model, 0, xs, n_caches, meta, r),
                None => r is None,
            }
    }
}

/// What comes out of a part of the model can be taken.
pub open spec fn model_takes(
    model: DeepSeekForCausalLM,
    call: ModelCall,
    output: Tensor,
    n_caches: Option<usize>,
    meta: InputMetadata,
) -> bool {
    let dims = tensor::tensor_dims(output);
    match call {
        ModelCall::Layer { idx, .. } => {
            &&& idx < layers_run(model, n_caches)
            &&& idx + 1 == layers_run(model, n_caches) ==> pick_defined(
                dims,
                tensor::tensor_dtype(output),
                tensor::tensor_start(output),
                seqlens_of(meta),
            )
        },
        ModelCall::Norm { .. } => !model.is_qvar_builder ==> tensor::countable(
            dims,
            tensor::elem_size(model.dtype),
        ) && tensor::readable(output),
        ModelCall::LmHead { .. } => !model.is_qvar_builder ==> tensor::countable(dims, 4)
            && tensor::readable(output),
        ModelCall::Done { .. } => false,
    }
}

/// What is next in a model once `output` came out of a part. Around the output layer, elements
/// are cast to the type of the model and then to full precision, unless weights are packed.
pub open spec fn model_next(
    model: DeepSeekForCausalLM,
    call: ModelCall,
    output: Tensor,
    n_caches: Option<usize>,
    meta: InputMetadata,
    r: Option<ModelCall>,
) -> bool {
    match call {
        ModelCall::Layer { idx, .. } => is_next(
            model,
            (idx + 1) as nat,
            output,
            n_caches,
            meta,
            r,
        ),
        ModelCall::Norm { .. } => {
            let x = match r {
                Some(ModelCall::LmHead { xs }) => Some(xs),
                _ => None,
            };
            &&& r is Some ==> r->0 is LmHead
            &&& if model.is_qvar_builder {
                x == Some(output)
            } else {
                cast_outcome(output, model.dtype, x)
            }
        },
        ModelCall::LmHead { .. } => {
            let x = match r {
                Some(ModelCall::Done { xs }) => Some(xs),
                _ => None,
            };
            &&& r is Some ==> r->0 is Done
            &&& if model.is_qvar_builder {
                x == Some(output)
            } else {
                cast_outcome(output, DType::F32, x)
            }
        },
        ModelCall::Done { .. } => false,
    }
}

fn cast(t: &Tensor, dtype: DType) -> (r: Result<Tensor, ShardError>)
    requires
        tensor::countable(tensor::tensor_dims(*t), tensor::elem_size(dtype)),
        tensor::readable(*t),
    ensures
        cast_outcome(*t, dtype, r.ok()),
        r is Err ==> r->Err_0 is Candle,
{
    match t.to_dtype(dtype) {
        Ok(c) => Ok(c),
        Err(e) => Err(ShardError::Candle(e)),
    }
}

impl DeepSeekForCausalLM {
    /// Looks up tokens in the table of token vectors.
    pub fn embed_forward(&self, xs: &Tensor) -> (r: Result<Tensor, ShardError>)
        requires
            embed_defined(*self, *xs),
        ensures
            embed_outcome(*self, *xs, r.ok()),
            r is Err ==> r->Err_0 is Candle,
    {
        let found = match tensor::embed(&self.embed_tokens, self.hidden_size, xs) {
            Ok(x) => x,
            Err(e) => {
                return Err(ShardError::Candle(e));
            },
        };
        assert(is_lookup(self.embed_tokens, self.hidden_size, *xs, found));
        if (self.is_qvar_builder || self.quantized) && !(found.dtype() == DType::F32) {
            cast(&found, DType::F32)
        } else {
            Ok(found)
        }
    }

    fn layer_count(&self, n_caches: Option<usize>) -> (r: usize)
        ensures
            r == layers_run(*self, n_caches),
    {
        match n_caches {
            Some(n) => if n <= self.layers.len() {
                n
            } else {
                self.layers.len()
            },
            None => 0,
        }
    }

    fn next_call(
        &self,
        idx: usize,
        xs: Tensor,
        n_caches: Option<usize>,
        meta: &InputMetadata,
    ) -> (r: Result<ModelCall, ShardError>)
        requires
            idx == layers_run(*self, n_caches) ==> pick_defined(
                tensor::tensor_dims(xs),
                tensor::tensor_dtype(xs),
                tensor::tensor_start(xs),
                seqlens_of(*meta),
            ),
            idx <= layers_run(*self, n_caches),
        ensures
            is_next(*self, idx as nat, xs, n_caches, *meta, r.ok()),
            r is Err ==> r->Err_0 is Candle,
    {
        if idx < self.layer_count(n_caches) {
            return Ok(ModelCall::Layer { idx, xs });
        }
        let picked = match &meta.seqlens {
            Some(v) => last_rows(xs, v.as_slice()),
            None => Ok(xs),
        };
        match picked {
            Ok(y) => Ok(ModelCall::Norm { xs: y }),
            Err(e) => Err(e),
        }
    }

    /// Lays out the mask that a run needs.
    pub fn mask_build(&self, input_metadata: &InputMetadata) -> (r: MaskBuild)
        ensures
            r.dtype == self.dtype,
            r.seqlens@ == seqlens_of(*input_metadata),
            r.sliding_window == self.sliding_window,
            r.is_prefill == input_metadata.is_prefill,
    {
        let seqlens: Vec<u32> = match &input_metadata.seqlens {
            Some(v) => vstd::slice::slice_to_vec(v.as_slice()),
            None => Vec::new(),
        };
        MaskBuild {
            dtype: self.dtype,
            seqlens,
            sliding_window: self.sliding_window,
            is_prefill: input_metadata.is_prefill,
        }
    }

    /// Starts to run the model. The input is tokens, or what was made of tokens elsewhere. Layers
    /// are run as far as there are caches for them.
    pub fn forward(
        &self,
        input_ids: &Tensor,
        n_caches: Option<usize>,
        input_metadata: &InputMetadata,
        embeded_inputs: bool,
    ) -> (r: Result<ModelCall, ShardError>)
        requires
            start_defined(*self, *input_ids, n_caches, *input_metadata, embeded_inputs),
        ensures
            is_start(*self, *input_ids, n_caches, *input_metadata, embeded_inputs, r.ok()),
            r is Err ==> r->Err_0 is Candle,
    {
        if embeded_inputs {
            return self.next_call(0, input_ids.clone(), n_caches, input_metadata);
        }
        match self.embed_forward(input_ids) {
            Ok(xs) => {
                let ghost x = Some(xs);
                assert(embed_outcome(*self, *input_ids, x));
                self.next_call(0, xs, n_caches, input_metadata)
            },
            Err(e) => {
                assert(embed_outcome(*self, *input_ids, None));
                Err(e)
            },
        }
    }

    /// Takes what came out of a part and says which is next.
    pub fn forward_next(
        &self,
        call: ModelCall,
        output: Tensor,
        n_caches: Option<usize>,
        input_metadata: &InputMetadata,
    ) -> (r: Result<ModelCall, ShardError>)
        requires
            model_takes(*self, call, output, n_caches, *input_metadata),
        ensures
            model_next(*self, call, output, n_caches, *input_metadata, r.ok()),
            r is Err ==> r->Err_0 is Candle,
    {
        match call {
            ModelCall::Layer { idx, .. } => self.next_call(
                idx + 1,
                output,
                n_caches,
                input_metadata,
            ),
            ModelCall::Norm { .. } => if self.is_qvar_builder {
                Ok(ModelCall::LmHead { xs: output })
            } else {
                match cast(&output, self.dtype) {
                    Ok(x) => Ok(ModelCall::LmHead { xs: x }),
                    Err(e) => Err(e),
                }
            },
            ModelCall::LmHead { .. } => if self.is_qvar_builder {
                Ok(ModelCall::Done { xs: output })
            } else {
                match cast(&output, DType::F32) {
                    Ok(x) => Ok(ModelCall::Done { xs: x }),
                    Err(e) => Err(e),
                }
            },
            ModelCall::Done { xs } => Ok(ModelCall::Done { xs }),
        }
    }

    /// Starts to run the model for what comes out of it.
    pub fn forward_embedding(
        &self,
        input_ids: &Tensor,
        n_caches: Option<usize>,
        input_metadata: &InputMetadata,
        embeded_inputs: bool,
    ) -> (r: Result<ModelCall, ShardError>)
        requires
            start_defined(*self, *input_ids, n_caches, *input_metadata, embeded_inputs),
        ensures
            is_start(*self, *input_ids, n_caches, *input_metadata, embeded_inputs, r.ok()),
            r is Err ==> r->Err_0 is Candle,
    {
        self.forward(input_ids, n_caches, input_metadata, embeded_inputs)
    }

    /// Starts to run the model on tokens among which there may be pictures; it has no use for
    /// them.
    pub fn forward_with_deepstack(
        &self,
        input_ids: &Tensor,
        n_caches: Option<usize>,
        input_metadata: &InputMetadata,
        embeded_inputs: bool,
        _visual_pos_masks: &Option<Tensor>,
        _deepstack_visual_embeds: &Option<Vec<Tensor>>,
    ) -> (r: Result<ModelCall, ShardError>)
        requires
            start_defined(*self, *input_ids, n_caches, *input_metadata, embeded_inputs),
        ensures
            is_start(*self, *input_ids, n_caches, *input_metadata, embeded_inputs, r.ok()),
            r is Err ==> r->Err_0 is Candle,
    {
        self.forward(input_ids, n_caches, input_metadata, embeded_inputs)
    }

    /// Tests whether tokens can be looked up.
    pub fn can_embed(&self, ids: &Tensor) -> (r: bool)
        ensures
            r == embed_defined(*self, *ids),
    {
        let table = &self.embed_tokens;
        let size: usize = table.dtype().size_in_bytes();
        if !tensor::is_readable(table) {
            return false;
        }
        if !tensor::is_countable(ids.dims(), ids.dtype().size_in_bytes()) {
            return false;
        }
        proof {
            tensor::lemma_countable_zero(
                tensor::tensor_dims(*ids),
                tensor::elem_size(tensor::tensor_dtype(*ids)),
            );
        }
        let count: usize = ids.elem_count();
        if table.dims().len() > 0 {
            let mut rows = vstd::slice::slice_to_vec(table.dims());
            rows.set(0, count);
            if !tensor::is_countable(rows.as_slice(), size) {
                return false;
            }
        }
        let mut dims = vstd::slice::slice_to_vec(ids.dims());
        dims.push(self.hidden_size);
        let wide: usize = if self.is_qvar_builder || self.quantized {
            4
        } else {
            size
        };
        tensor::is_countable(dims.as_slice(), size) && tensor::is_countable(dims.as_slice(), wide)
    }

    /// Tests whether a model can be started.
    pub fn can_start(
        &self,
        input: &Tensor,
        n_caches: Option<usize>,
        meta: &InputMetadata,
        embeded_inputs: bool,
    ) -> (r: bool)
        ensures
            r == start_defined(*self, *input, n_caches, *meta, embeded_inputs),
    {
        if !embeded_inputs && !self.can_embed(input) {
            return false;
        }
        if self.layer_count(n_caches) > 0 {
            return true;
        }
        if embeded_inputs {
            can_pick(input.dims(), input.dtype(), tensor::start_offset(input), meta)
        } else {
            let mut dims = vstd::slice::slice_to_vec(input.dims());
            dims.push(self.hidden_size);
            let dtype = if self.is_qvar_builder || self.quantized {
                DType::F32
            } else {
                self.embed_tokens.dtype()
            };
            can_pick(dims.as_slice(), dtype, 0, meta)
        }
    }

    /// Tests whether what comes out of a part of the model can be taken.
    pub fn can_take(
        &self,
        call: &ModelCall,
        output: &Tensor,
        n_caches: Option<usize>,
        meta: &InputMetadata,
    ) -> (r: bool)
        ensures
            r == model_takes(*self, *call, *output, n_caches, *meta),
    {
        let n: usize = self.layer_count(n_caches);
        match call {
            ModelCall::Layer { idx, .. } => *idx < n && (*idx + 1 < n || can_pick(
                output.dims(),
                output.dtype(),
                tensor::start_offset(output),
                meta,
            )),
            ModelCall::Norm { .. } => self.is_qvar_builder || (tensor::is_countable(
                output.dims(),
                self.dtype.size_in_bytes(),
            ) && tensor::is_readable(output)),
            ModelCall::LmHead { .. } => self.is_qvar_builder || (tensor::is_countable(
                output.dims(),
                4,
            ) && tensor::is_readable(output)),
            ModelCall::Done { .. } => false,
        }
    }
}

fn can_pick(dims: &[usize], dtype: DType, start: usize, meta: &InputMetadata) -> (r: bool)
    ensures
        r == pick_defined(dims@, dtype, start, seqlens_of(*meta)),
{
    match &meta.seqlens {
        None => true,
        Some(v) => {
            let mut i: usize = 0;
            while i < v.len()
                invariant
                    i <= v@.len(),
                    seqlens_of(*meta) == v@,
                    forall|k: int| 0 <= k < i ==> #[trigger] v@[k] >= 1,
                decreases v@.len() - i,
            {
                if v[i] == 0 {
                    return false;
                }
                i = i + 1;
            }
            if v.len() == 0 || dims.len() == 0 {
                return true;
            }
            if start != 0 && tensor::has_no_elements(dims) {
                return false;
            }
            let mut rows = vstd::slice::slice_to_vec(dims);
            rows.set(0, v.len());
            tensor::is_countable(rows.as_slice(), dtype.size_in_bytes())
        },
    }
}

/// A model that is given what it makes of tokens starts as it does on the tokens: if looking them
/// up came to `e`, whatever can be the start on `e` can be the start on the tokens.
pub proof fn law_embedded_start(
    model: DeepSeekForCausalLM,
    ids: Tensor,
    e: Tensor,
    n_caches: Option<usize>,
    meta: InputMetadata,
    r: Option<ModelCall>,
)
    requires
        embed_outcome(model, ids, Some(e)),
        is_start(model, e, n_caches, meta, true, r),
    ensures
        is_start(model, ids, n_caches, meta, false, r),
{
    let x = Some(e);
    assert(embed_outcome(model, ids, x));
}

/// A run of a model on what it makes of tokens is a run on the tokens: the same parts in turn, on
/// the same tensors.
pub proof fn law_embedded_run(
    model: DeepSeekForCausalLM,
    ids: Tensor,
    e: Tensor,
    n_caches: Option<usize>,
    meta: InputMetadata,
    calls: Seq<ModelCall>,
    outputs: Seq<Tensor>,
)
    requires
        embed_outcome(model, ids, Some(e)),
        is_model_run(model, e, n_caches, meta, true, calls, outputs),
    ensures
        is_model_run(model, ids, n_caches, meta, false, calls, outputs),
{
    law_embedded_start(model, ids, e, n_caches, meta, Some(calls[0]));
}

/// `calls` and `outputs` are a run of a model from its start to its end: what came out of each
/// part, and the parts in turn.
pub open spec fn is_model_run(
    model: DeepSeekForCausalLM,
    input: Tensor,
    n_caches: Option<usize>,
    meta: InputMetadata,
    embeded_inputs: bool,
    calls: Seq<ModelCall>,
    outputs: Seq<Tensor>,
) -> bool {
    &&& calls.len() == outputs.len() + 1
    &&& is_start(model, input, n_caches, meta, embeded_inputs, Some(calls[0]))
    &&& forall|i: int|
        #![trigger outputs[i]]
        0 <= i < outputs.len() ==> model_next(
            model,
            calls[i],
            outputs[i],
            n_caches,
            meta,
            Some(calls[i + 1]),
        )
    &&& calls.last() is Done
}

/// Call `i` is that of layer `i`, on what came out of the one before.
pub open spec fn is_layer_call(calls: Seq<ModelCall>, outputs: Seq<Tensor>, i: int) -> bool {
    &&& calls[i] is Layer
    &&& calls[i]->idx == i
    &&& i > 0 ==> calls[i]->Layer_xs == outputs[i - 1]
}

proof fn lemma_layers_in_turn(
    model: DeepSeekForCausalLM,
    input: Tensor,
    n_caches: Option<usize>,
    meta: InputMetadata,
    embeded_inputs: bool,
    calls: Seq<ModelCall>,
    outputs: Seq<Tensor>,
    i: int,
)
    requires
        is_model_run(model, input, n_caches, meta, embeded_inputs, calls, outputs),
        0 <= i <= layers_run(model, n_caches),
    ensures
        i < calls.len(),
        i < layers_run(model, n_caches) ==> is_layer_call(calls, outputs, i),
        i == layers_run(model, n_caches) ==> calls[i] is Norm,
    decreases i,
{
    if i > 0 {
        lemma_layers_in_turn(
            model,
            input,
            n_caches,
            meta,
            embeded_inputs,
            calls,
            outputs,
            i - 1,
        );
        if i - 1 == outputs.len() {
            assert(calls.last() == calls[i - 1]);
        }
        assert(model_next(model, calls[i - 1], outputs[i - 1], n_caches, meta, Some(calls[i])));
    }
}

/// A run goes through the layers that there are caches for, each on what came out of the one
/// before, then through the norm and the output layer. What comes out of it has full precision,
/// unless weights are packed: then it is what the output layer made.
pub proof fn law_model_run(
    model: DeepSeekForCausalLM,
    input: Tensor,
    n_caches: Option<usize>,
    meta: InputMetadata,
    embeded_inputs: bool,
    calls: Seq<ModelCall>,
    outputs: Seq<Tensor>,
)
    requires
        is_model_run(model, input, n_caches, meta, embeded_inputs, calls, outputs),
    ensures
        ({
            let n = layers_run(model, n_caches) as int;
            &&& outputs.len() == n + 2
            &&& forall|i: int| 0 <= i < n ==> #[trigger] is_layer_call(calls, outputs, i)
            &&& calls[n] is Norm
            &&& calls[n + 1] is LmHead
            &&& calls[n + 2] is Done
            &&& model.is_qvar_builder ==> calls[n + 2]->Done_xs == outputs[n + 1]
            &&& !model.is_qvar_builder ==> tensor::tensor_dtype(calls[n + 2]->Done_xs)
                == DType::F32
        }),
{
    let n = layers_run(model, n_caches) as int;
    assert forall|i: int| 0 <= i < n implies #[trigger] is_layer_call(calls, outputs, i) by {
        lemma_layers_in_turn(model, input, n_caches, meta, embeded_inputs, calls, outputs, i);
    }
    lemma_layers_in_turn(model, input, n_caches, meta, embeded_inputs, calls, outputs, n);
    if outputs.len() == n {
        assert(calls.last() == calls[n]);
    }
    assert(model_next(model, calls[n], outputs[n], n_caches, meta, Some(calls[n + 1])));
    if outputs.len() == n + 1 {
        assert(calls.last() == calls[n + 1]);
    }
    assert(model_next(model, calls[n + 1], outputs[n + 1], n_caches, meta, Some(calls[n + 2])));
    if outputs.len() > n + 2 {
        assert(model_next(model, calls[n + 2], outputs[n + 2], n_caches, meta, Some(calls[n + 3])));
    }
}

} // verus!
