//! Which settings, tensors and sequences a model takes.

use crate::models::causal_lm;
use crate::models::causal_lm::{lm_head_is_defined, vocab_is_fit, DeepSeekForCausalLM};
use crate::models::config::Config;
use crate::models::deepseek3;
use crate::models::deepseek3::all_buffers_are_wf;
use crate::models::forward;
use crate::models::forward::{InputMetadata, ModelCall};
use crate::models::layer_forward;
use crate::models::layer_forward::LayerCall;
use crate::models::layout_laws;
use crate::models::run_laws::{depth, ends};
use crate::utils::buffer_laws;
use crate::utils::tensor;
use crate::utils::tensor_index;
use crate::utils::tensor_index::TensorIndex;
use candle_core::{DType, Tensor};
use vstd::prelude::*;

verus! {

/// The layers of a model can all be laid out exactly if the last one can: if any has experts, it
/// has. A model without layers can.
pub proof fn law_all_layers(config: Config, r: bool, last: bool)
    requires
        call_ensures(Config::is_wf, (&config,), r),
        config.num_hidden_layers > 0 ==> call_ensures(
            Config::layer_is_wf,
            (&config, (config.num_hidden_layers - 1) as usize),
            last,
        ),
    ensures
        config.num_hidden_layers == 0 ==> r,
        config.num_hidden_layers > 0 ==> r == last,
{
    if config.num_hidden_layers > 0 {
        let n = (config.num_hidden_layers - 1) as usize;
        if config.layer_wf(n) {
            assert forall|i: usize| 0 <= i < config.num_hidden_layers implies #[trigger]
                config.layer_wf(i) by {
                if config.moe_cfg->0.has_experts(i) {
                    assert(config.moe_cfg->0.has_experts(n));
                }
            }
        }
    }
}

/// Buffers can be laid out for every model that can be laid out of weights, and for every model
/// with experts that are refused.
pub proof fn law_all_buffers(config: Config, r: bool, wf: bool)
    requires
        call_ensures(all_buffers_are_wf, (&config,), r),
        call_ensures(Config::is_wf, (&config,), wf),
    ensures
        wf ==> r,
        config.num_hidden_layers > 0 && config.moe_cfg is None ==> !r,
        r && !wf ==> layout_laws::with_experts(config, (config.num_hidden_layers - 1) as usize)
            && !(config.quantization_config is Some
            && config.quantization_config->0.quant_method@ == seq!['f', 'p', '8']),
        config.num_hidden_layers > 0 && config.moe_cfg is Some && config.quantization_config is None
            ==> r,
{
    reveal_strlit("fp8");
    assert("fp8"@ =~= seq!['f', 'p', '8']);
    if wf {
        assert forall|i: usize| 0 <= i < config.num_hidden_layers implies #[trigger]
            deepseek3::alloc_wf(config, i) by {
            assert(config.layer_wf(i));
        }
    }
    if r && !wf {
        let i = choose|i: usize|
            0 <= i < config.num_hidden_layers && !#[trigger] config.layer_wf(i);
        assert(deepseek3::alloc_wf(config, i));
        let last = (config.num_hidden_layers - 1) as usize;
        assert(config.moe_cfg->0.has_experts(last));
    }
    if config.num_hidden_layers > 0 && config.moe_cfg is None {
        assert(!deepseek3::alloc_wf(config, 0));
    }
    if config.moe_cfg is Some && config.quantization_config is None {
        assert forall|i: usize| 0 <= i < config.num_hidden_layers implies #[trigger]
            deepseek3::alloc_wf(config, i) by {}
    }
}

/// A vocabulary can be split over any number of ranks, short of the end of the numbers.
pub proof fn law_vocabulary_fits(vocab_size: usize, nproc: usize, r: bool)
    requires
        call_ensures(vocab_is_fit, (vocab_size, nproc), r),
    ensures
        nproc == 0 ==> !r,
        nproc > 0 && vocab_size + nproc + 256 <= usize::MAX ==> r,
{
    if nproc > 0 && vocab_size + nproc + 256 <= usize::MAX {
        causal_lm::law_vocab(vocab_size as nat, nproc as nat);
        layout_laws::lemma_rounded(vocab_size as int, 64);
        layout_laws::lemma_rounded(causal_lm::rounded_up(vocab_size as int, 64), nproc as int);
    }
}

/// Tokens can be looked up if everything that comes of it can be counted and the table can be read.
pub proof fn law_can_embed(model: DeepSeekForCausalLM, ids: Tensor, r: bool)
    requires
        call_ensures(DeepSeekForCausalLM::can_embed, (&model, &ids), r),
    ensures
        ({
            let table = model.embed_tokens;
            let rows = tensor::tensor_dims(table);
            let size = tensor::elem_size(tensor::tensor_dtype(table));
            let dims = tensor::tensor_dims(ids);
            let made = dims.push(model.hidden_size);
            r <==> {
                &&& tensor::is_empty(rows) ==> tensor::tensor_start(table) == 0
                &&& tensor::countable(dims, tensor::elem_size(tensor::tensor_dtype(ids)))
                &&& rows.len() > 0 ==> tensor::countable(
                    rows.update(0, tensor::elem_count(dims) as usize),
                    size,
                )
                &&& tensor::countable(made, size)
                &&& model.is_qvar_builder || model.quantized ==> tensor::countable(made, 4)
            }
        }),
{
}

/// The last rows can be picked of something: no sequence is empty, what is picked can be counted,
/// and what has no elements starts where its storage does. Without sequences nothing is picked.
pub open spec fn pickable(
    dims: Seq<usize>,
    dtype: DType,
    start: usize,
    meta: InputMetadata,
) -> bool {
    let n = ends(meta).len();
    n > 0 ==> {
        &&& forall|i: int| 0 <= i < n ==> #[trigger] ends(meta)[i] > 0
        &&& tensor::is_empty(dims) ==> start == 0
        &&& dims.len() > 0 ==> tensor::countable(
            dims.update(0, n as usize),
            tensor::elem_size(dtype),
        )
    }
}

/// A run can be started on what can be looked up, or on anything that is embedded; if no layer is
/// run, the last rows of it have to be pickable.
pub proof fn law_can_start(
    model: DeepSeekForCausalLM,
    input: Tensor,
    n_caches: Option<usize>,
    meta: InputMetadata,
    embedded: bool,
    r: bool,
    looked_up: bool,
    n: int,
)
    requires
        call_ensures(
            DeepSeekForCausalLM::can_start,
            (&model, &input, n_caches, &meta, embedded),
            r,
        ),
        call_ensures(DeepSeekForCausalLM::can_embed, (&model, &input), looked_up),
        depth(model, n_caches, n),
    ensures
        n > 0 && embedded ==> r,
        n > 0 && !embedded ==> r == looked_up,
        n == 0 && embedded ==> (r <==> pickable(
            tensor::tensor_dims(input),
            tensor::tensor_dtype(input),
            tensor::tensor_start(input),
            meta,
        )),
        n == 0 && !embedded ==> (r <==> looked_up && pickable(
            tensor::tensor_dims(input).push(model.hidden_size),
            if model.is_qvar_builder || model.quantized {
                DType::F32
            } else {
                tensor::tensor_dtype(model.embed_tokens)
            },
            0,
            meta,
        )),
{
    assert(forward::seqlens_of(meta) == ends(meta));
    assert(n == forward::layers_run(model, n_caches));
}

/// What comes out of a part can be taken: out of a layer that is run, behind the last of which the
/// last rows have to be pickable, and around the output layer whatever can be counted and read in
/// the type that it is cast to. If weights are packed, nothing is cast.
pub proof fn law_can_take(
    model: DeepSeekForCausalLM,
    call: ModelCall,
    output: Tensor,
    n_caches: Option<usize>,
    meta: InputMetadata,
    r: bool,
    n: int,
)
    requires
        call_ensures(
            DeepSeekForCausalLM::can_take,
            (&model, &call, &output, n_caches, &meta),
            r,
        ),
        depth(model, n_caches, n),
    ensures
        ({
            let dims = tensor::tensor_dims(output);
            let whole = tensor::is_empty(dims) ==> tensor::tensor_start(output) == 0;
            &&& call is Layer ==> (r <==> call->idx < n && (call->idx + 1 == n ==> pickable(
                dims,
                tensor::tensor_dtype(output),
                tensor::tensor_start(output),
                meta,
            )))
            &&& call is Norm ==> (r <==> model.is_qvar_builder || (tensor::countable(
                dims,
                tensor::elem_size(model.dtype),
            ) && whole))
            &&& call is LmHead ==> (r <==> model.is_qvar_builder || (tensor::countable(dims, 4)
                && whole))
            &&& call is Done ==> !r
        }),
{
    assert(forward::seqlens_of(meta) == ends(meta));
    assert(n == forward::layers_run(model, n_caches));
}

/// A sum of tensors in host memory that go together has no more than eight dimensions, unless
/// there is nothing to add.
pub open spec fn few_dims(a: Tensor, b: Tensor) -> bool {
    ||| tensor::tensor_dims(a).len() <= 8
    ||| tensor::tensor_dims(a) != tensor::tensor_dims(b)
    ||| tensor::tensor_dtype(a) != tensor::tensor_dtype(b)
    ||| !tensor::tensor_on_cpu(a)
    ||| !tensor::tensor_on_cpu(b)
    ||| tensor::is_empty(tensor::tensor_dims(a))
}

/// A tensor of floating point numbers that can be counted.
pub open spec fn counted_floats(t: Tensor) -> bool {
    &&& tensor::countable(tensor::tensor_dims(t), tensor::elem_size(tensor::tensor_dtype(t)))
    &&& tensor::tensor_dtype(t) != DType::U8
    &&& tensor::tensor_dtype(t) != DType::U32
    &&& tensor::tensor_dtype(t) != DType::I16
    &&& tensor::tensor_dtype(t) != DType::I32
    &&& tensor::tensor_dtype(t) != DType::I64
}

/// What comes out of a part of a layer can be taken, if the sums that are made of it are of
/// floating point numbers, can be counted and have few dimensions.
pub proof fn law_layer_can_take(call: LayerCall, output: Tensor, r: bool)
    requires
        call_ensures(layer_forward::can_take, (&call, &output), r),
    ensures
        call is InputNorm || call is PostAttentionNorm || call is SharedExpert ==> r,
        call is Done ==> !r,
        call is Attention && counted_floats(output) ==> r == few_dims(
            output,
            call->Attention_residual,
        ),
        call is Mlp && call->Mlp_shared is None && counted_floats(call->Mlp_residual) ==> r
            == few_dims(call->Mlp_residual, output),
        call is Mlp && call->Mlp_shared is Some && counted_floats(call->Mlp_residual)
            && counted_floats(output) ==> r == (few_dims(call->Mlp_residual, output) && few_dims(
            output,
            call->Mlp_shared->0,
        )),
{
    match call {
        LayerCall::Mlp { residual, shared, .. } => {
            if shared is Some && counted_floats(residual) && counted_floats(output) {
                let s = shared->0;
                assert(tensor::sums_fit(output, s));
                assert forall|both: Tensor| #[trigger]
                    layer_forward::is_tensor_sum(output, s, both) implies tensor::sums_fit(
                    residual,
                    both,
                ) by {}
            }
        },
        _ => {},
    }
}

/// The weights of the output layer can be laid out if the vocabulary can be split and, where the
/// index holds them, they can be counted.
pub proof fn law_lm_head_fits(
    ti: TensorIndex,
    vocab_size: usize,
    hidden_size: usize,
    nproc: usize,
    dtype: DType,
    r: bool,
    fits: bool,
)
    requires
        call_ensures(lm_head_is_defined, (&ti, vocab_size, hidden_size, nproc, dtype), r),
        call_ensures(vocab_is_fit, (vocab_size, nproc), fits),
    ensures
        ({
            let w = "lm_head.weight"@;
            let name = ti.tensors@[w].src_dtype@;
            let dims = seq![
                causal_lm::local_vocab(vocab_size as int, nproc as int) as usize,
                hidden_size,
            ];
            let known = exists|d: DType| #[trigger] buffer_laws::names_type(name, d);
            &&& !ti.tensors@.contains_key(w) ==> r == fits
            &&& ti.tensors@.contains_key(w) && !known ==> r == (fits && tensor::countable(
                dims,
                tensor::elem_size(dtype),
            ))
            &&& forall|d: DType| #[trigger]
                buffer_laws::names_type(name, d) && ti.tensors@.contains_key(w) ==> r == (fits
                    && tensor::countable(dims, tensor::elem_size(d)))
        }),
{
    let name = ti.tensors@["lm_head.weight"@].src_dtype@;
    buffer_laws::lemma_names_type(name);
    if let Some(d) = tensor_index::dtype_named(name) {
        assert(buffer_laws::names_type(name, d));
    }
}

} // verus!
