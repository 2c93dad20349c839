//! What holds of every layer and model that is laid out, whatever the settings.

use crate::models::causal_lm;
use crate::models::causal_lm::{
    build_rotary_emb, embedding_build, local_vocab_of, DeepSeekForCausalLM, EmbeddingBuild,
    ModelAlloc, ModelBuild, RotaryPart,
};
use crate::models::config::{Config, MoeConfig};
use crate::models::deepseek3;
use crate::models::deepseek3::{
    AllocStep, BuildStep, DeepSeekDecoderLayer, LayerPart, MoeOrMlp, SharedKeys,
};
use crate::utils::error::ShardError;
use crate::utils::text;
use candle_core::{DType, Tensor};
use vstd::prelude::*;

verus! {

/// Experts start behind the first layers that have none, and go on to the last layer. Without a
/// number of experts there are none at all.
pub proof fn law_experts(moe: MoeConfig, i: usize, r: bool)
    requires
        call_ensures(MoeConfig::layer_has_experts, (&moe, i), r),
    ensures
        moe.num_experts is None ==> !r,
        moe.num_experts is Some && moe.first_k_dense_replace is None ==> r,
        moe.num_experts is Some ==> (moe.first_k_dense_replace matches Some(k) ==> (r <==> k <= i)),
{
}

/// The expert that every token goes through is as large as the shared experts together: one is as
/// large as the settings say, each further one adds as much, and without a number there is one.
/// There is none if they have no size.
pub proof fn law_shared_expert_size(moe: MoeConfig, r: Option<usize>)
    requires
        call_ensures(MoeConfig::shared_expert_size, (&moe,), r),
    ensures
        r is Some <==> moe.shared_expert_intermediate_size is Some
            && moe.shared_expert_intermediate_size->0 > 0,
        r matches Some(size) ==> {
            let one = moe.shared_expert_intermediate_size->0;
            &&& moe.n_shared_experts is None ==> size == one
            &&& moe.n_shared_experts matches Some(n) ==> size == n * one
        },
{
    if let Some(one) = moe.shared_expert_intermediate_size {
        if let Some(n) = moe.n_shared_experts {
            vstd::arithmetic::mul::lemma_mul_is_commutative(one as int, n as int);
        }
        assert(one * 1 == one);
    }
}

/// With one shared expert more, what every token goes through is larger by the size of one.
pub proof fn law_one_shared_expert_more(
    a: MoeConfig,
    b: MoeConfig,
    ra: Option<usize>,
    rb: Option<usize>,
)
    requires
        call_ensures(MoeConfig::shared_expert_size, (&a,), ra),
        call_ensures(MoeConfig::shared_expert_size, (&b,), rb),
        a.shared_expert_intermediate_size == b.shared_expert_intermediate_size,
        a.shared_expert_intermediate_size is Some,
        a.shared_expert_intermediate_size->0 > 0,
        b.n_shared_experts is Some,
        (match a.n_shared_experts {
            Some(n) => n as int,
            None => 1,
        }) + 1 == b.n_shared_experts->0,
    ensures
        ra is Some && rb is Some,
        rb->0 == ra->0 + a.shared_expert_intermediate_size->0,
{
    law_shared_expert_size(a, ra);
    law_shared_expert_size(b, rb);
    let one = a.shared_expert_intermediate_size->0 as int;
    let n = (match a.n_shared_experts {
        Some(n) => n as int,
        None => 1,
    });
    assert((n + 1) * one == n * one + one) by (nonlinear_arith);
}

/// A layer can be laid out if the model is one with experts and the size of the shared ones fits;
/// that is asked only of layers that have experts.
pub proof fn law_layer_can_be_laid_out(config: Config, i: usize, r: bool)
    requires
        call_ensures(Config::layer_is_wf, (&config, i), r),
    ensures
        config.moe_cfg is None ==> !r,
        config.moe_cfg matches Some(moe) ==> {
            let one = moe.shared_expert_intermediate_size;
            let n = moe.n_shared_experts;
            &&& moe.num_experts is None ==> r
            &&& one is None ==> r
            &&& one is Some && n is None ==> r
            &&& one is Some && n is Some && n->0 * one->0 <= usize::MAX ==> r
            &&& with_shared(config, i) && shared_together(config) > usize::MAX ==> !r
        },
{
    if let Some(moe) = config.moe_cfg {
        if let Some(one) = moe.shared_expert_intermediate_size {
            if let Some(n) = moe.n_shared_experts {
                vstd::arithmetic::mul::lemma_mul_is_commutative(one as int, n as int);
            }
            assert(one * 1 == one);
        }
    }
}

/// Weights are in blocks of 8-bit numbers exactly if the settings name that way to quantize.
pub proof fn law_fp8(config: Config, r: bool)
    requires
        call_ensures(Config::uses_fp8, (&config,), r),
    ensures
        r <==> config.quantization_config is Some
            && config.quantization_config->0.quant_method@ == seq!['f', 'p', '8'],
{
    reveal_strlit("fp8");
    assert("fp8"@ =~= seq!['f', 'p', '8']);
}

/// Blocks are as the settings say, and else squares of 128.
pub proof fn law_block_size(config: Config, r: Vec<usize>)
    requires
        call_ensures(Config::block_size, (&config,), r),
    ensures
        match config.quantization_config {
            Some(q) => match q.weight_block_size {
                Some(b) => r@ == b@,
                None => r@.len() == 2 && r@[0] == 128 && r@[1] == 128,
            },
            None => r@.len() == 2 && r@[0] == 128 && r@[1] == 128,
        },
{
}

/// A layer has experts: their number is set, and the layer is not one of the first that have none.
pub open spec fn with_experts(config: Config, i: usize) -> bool {
    let moe = config.moe_cfg->0;
    moe.num_experts is Some && (moe.first_k_dense_replace matches Some(k) ==> k <= i)
}

/// A layer has an expert that every token goes through: it has experts, and the shared ones have a
/// size.
pub open spec fn with_shared(config: Config, i: usize) -> bool {
    let one = config.moe_cfg->0.shared_expert_intermediate_size;
    with_experts(config, i) && one is Some && one->0 > 0
}

/// The size of the shared experts together.
pub open spec fn shared_together(config: Config) -> int {
    let moe = config.moe_cfg->0;
    match moe.n_shared_experts {
        Some(n) => n * moe.shared_expert_intermediate_size->0,
        None => moe.shared_expert_intermediate_size->0 as int,
    }
}

/// Which experts a layer has: none where it has a plain perceptron. Packed weights have a kind of
/// their own; of the others, those in blocks of 8-bit numbers, and those that are to be quantized
/// while they are loaded, if they are not quantized yet.
pub open spec fn kind_fits(config: Config, packed: bool, i: usize, kind: MoeOrMlp) -> bool {
    let fp8 = config.quantization_config is Some
        && config.quantization_config->0.quant_method@ == seq!['f', 'p', '8'];
    &&& kind == MoeOrMlp::Mlp <==> !with_experts(config, i)
    &&& kind == MoeOrMlp::FusedMoeGGUF <==> with_experts(config, i) && packed
    &&& kind == MoeOrMlp::FusedMoeFp8 <==> with_experts(config, i) && !packed && fp8
    &&& kind == MoeOrMlp::FusedMoeISQ <==> with_experts(config, i) && !packed
        && config.quantization_config is None && config.quant is Some
}

proof fn lemma_layer_settings(config: Config, i: usize)
    requires
        config.moe_cfg is Some,
    ensures
        config.moe_cfg->0.has_experts(i) == with_experts(config, i),
        deepseek3::shared_in_layer(config, i) is Some <==> with_shared(config, i),
        with_shared(config, i) ==> deepseek3::shared_in_layer(config, i)->0 == shared_together(
            config,
        ),
        config.is_fp8() == (config.quantization_config is Some
            && config.quantization_config->0.quant_method@ == seq!['f', 'p', '8']),
{
    reveal_strlit("fp8");
    assert("fp8"@ =~= seq!['f', 'p', '8']);
    let moe = config.moe_cfg->0;
    if let Some(one) = moe.shared_expert_intermediate_size {
        if let Some(n) = moe.n_shared_experts {
            vstd::arithmetic::mul::lemma_mul_is_commutative(one as int, n as int);
        }
        assert(one * 1 == one);
    }
}

/// A layer is what the settings make it: experts of a kind, or a plain perceptron, and perhaps an
/// expert that every token goes through.
pub proof fn law_layer_kind(
    config: Config,
    packed: bool,
    keys: SharedKeys,
    dtype: DType,
    i: usize,
    r: (DeepSeekDecoderLayer, Vec<BuildStep>),
)
    requires
        config.layer_wf(i),
        call_ensures(DeepSeekDecoderLayer::new, (&config, packed, keys, dtype, i), r),
    ensures
        kind_fits(config, packed, i, r.0.mlp),
        r.0.shared_expert <==> with_shared(config, i),
{
    lemma_layer_settings(config, i);
}

/// The parts of a layer: its attention, its experts or its perceptron, the expert that every token
/// goes through, if it has one, and two norms. Each has the sizes of the model, and the norms
/// compute with full precision.
pub proof fn law_layer_parts(
    config: Config,
    packed: bool,
    keys: SharedKeys,
    dtype: DType,
    i: usize,
    r: (DeepSeekDecoderLayer, Vec<BuildStep>),
)
    requires
        config.layer_wf(i),
        call_ensures(DeepSeekDecoderLayer::new, (&config, packed, keys, dtype, i), r),
    ensures
        ({
            let steps = r.1@;
            let n = steps.len() as int;
            let hidden_size = config.hidden_size;
            &&& n == (if with_shared(config, i) {
                5int
            } else {
                4int
            })
            &&& steps[0].part == (LayerPart::Attention { layer_idx: i })
            &&& with_experts(config, i) ==> steps[1].part == (LayerPart::Experts {
                kind: r.0.mlp,
            })
            &&& !with_experts(config, i) ==> steps[1].part == (LayerPart::Mlp {
                hidden_size,
                intermediate_size: config.intermediate_size,
            })
            &&& with_shared(config, i) ==> (steps[2].part matches LayerPart::SharedExpert {
                hidden_size: h,
                intermediate_size,
            } && h == hidden_size && intermediate_size == shared_together(config))
            &&& steps[n - 2].part == (LayerPart::InputNorm { hidden_size })
            &&& steps[n - 1].part == (LayerPart::PostAttentionNorm { hidden_size })
            &&& steps[n - 2].dtype == DType::F32
            &&& steps[n - 1].dtype == DType::F32
            &&& forall|k: int| 0 <= k < n - 2 ==> (#[trigger] steps[k]).dtype == dtype
        }),
{
    lemma_layer_settings(config, i);
    let steps = r.1@;
    let views = deepseek3::build_views(steps);
    assert(views.len() == steps.len());
    assert forall|k: int| 0 <= k < steps.len() implies views[k] == (#[trigger] steps[k])@ by {}
    let n = steps.len() as int;
    assert(views[0] == steps[0]@ && views[1] == steps[1]@ && views[n - 2] == steps[n - 2]@
        && views[n - 1] == steps[n - 1]@);
    if with_shared(config, i) {
        assert(views[2] == steps[2]@);
    }
}

/// Where the weights of a layer are: if they are packed, all in one place but for the norms, and
/// else each part in a place of its own below the layer. Only the names of packed shared experts
/// have an ending, and the place of others is the one that there are weights in.
pub proof fn law_layer_places(
    config: Config,
    packed: bool,
    keys: SharedKeys,
    dtype: DType,
    i: usize,
    r: (DeepSeekDecoderLayer, Vec<BuildStep>),
)
    requires
        config.layer_wf(i),
        call_ensures(DeepSeekDecoderLayer::new, (&config, packed, keys, dtype, i), r),
    ensures
        ({
            let steps = r.1@;
            let n = steps.len() as int;
            let several = keys.weight || keys.weight_packed;
            &&& packed ==> forall|k: int| 0 <= k < n - 2 ==> (#[trigger] steps[k]).at is None
            &&& forall|k: int|
                0 <= k < n ==> ((#[trigger] steps[k]).suffix@ == (if packed && k == 2 && n == 5 {
                    "_shexp"@
                } else {
                    ""@
                }))
            &&& !packed ==> {
                &&& steps[0].at matches Some(s) && s@ == "self_attn"@
                &&& steps[1].at matches Some(s) && s@ == "mlp"@
                &&& n == 5 && several ==> (steps[2].at matches Some(s) && s@
                    == "mlp.shared_experts"@)
                &&& n == 5 && !several ==> (steps[2].at matches Some(s) && s@
                    == "mlp.shared_expert"@)
                &&& steps[n - 2].at matches Some(s) && s@ == "input_layernorm"@
                &&& steps[n - 1].at matches Some(s) && s@ == "post_attention_layernorm"@
            }
            &&& packed ==> {
                &&& steps[n - 2].at matches Some(s) && s@ == "attn_norm"@
                &&& steps[n - 1].at matches Some(s) && s@ == "ffn_norm"@
            }
        }),
{
    lemma_layer_settings(config, i);
    let steps = r.1@;
    let views = deepseek3::build_views(steps);
    assert(views.len() == steps.len());
    assert forall|k: int| 0 <= k < steps.len() implies views[k] == (#[trigger] steps[k])@ by {}
    let n = steps.len() as int;
    assert(views[0] == steps[0]@ && views[1] == steps[1]@ && views[n - 2] == steps[n - 2]@
        && views[n - 1] == steps[n - 1]@);
    if n == 5 {
        assert(views[2] == steps[2]@);
    }
    assert forall|k: int| 0 <= k < n implies ((#[trigger] steps[k]).suffix@ == (if packed && k == 2
        && n == 5 {
        "_shexp"@
    } else {
        ""@
    })) by {
        assert(views[k] == steps[k]@);
    }
}

/// No buffers are laid out for a layer with experts that are not in blocks of 8-bit numbers: only
/// those of its attention have then been made. Every other layer is laid out.
pub proof fn law_refusal(
    config: Config,
    dtype: DType,
    i: usize,
    r: (Vec<AllocStep>, Result<DeepSeekDecoderLayer, ShardError>),
)
    requires
        deepseek3::alloc_wf(config, i),
        call_ensures(DeepSeekDecoderLayer::new_alloc, (&config, dtype, i), r),
    ensures
        ({
            let q = config.quantization_config;
            let unlike = q is Some && q->0.quant_method@ != seq!['f', 'p', '8'];
            &&& (r.1 is Err && r.1->Err_0 is MoeNotQuantized) <==> with_experts(config, i)
                && q is None
            &&& (r.1 is Err && r.1->Err_0 is MoeQuantUnsupported) <==> with_experts(config, i)
                && unlike
            &&& r.1 is Err ==> r.1->Err_0 is MoeNotQuantized || r.1->Err_0 is MoeQuantUnsupported
            &&& r.1 is Err ==> r.0@.len() == 1
            &&& r.0@[0].part == (LayerPart::Attention { layer_idx: i })
            &&& r.0@[0].prefix is None && r.0@[0].gate_prefix is None && r.0@[0].dtype == dtype
        }),
{
    lemma_layer_settings(config, i);
    let views = deepseek3::alloc_views(r.0@);
    assert(views.len() == r.0@.len());
    assert(views[0] == r.0@[0]@);
}

/// A layer made of buffers has the parts of a layer made of weights that are not packed, in the
/// same order, with the same sizes and in the same types, and is the same layer.
pub proof fn law_buffers_have_the_same_parts(
    config: Config,
    keys: SharedKeys,
    dtype: DType,
    i: usize,
    built: (DeepSeekDecoderLayer, Vec<BuildStep>),
    r: (Vec<AllocStep>, Result<DeepSeekDecoderLayer, ShardError>),
)
    requires
        config.layer_wf(i),
        call_ensures(DeepSeekDecoderLayer::new, (&config, false, keys, dtype, i), built),
        call_ensures(DeepSeekDecoderLayer::new_alloc, (&config, dtype, i), r),
        r.1 is Ok,
    ensures
        r.1->Ok_0 == built.0,
        r.0@.len() == built.1@.len(),
        forall|k: int|
            #![trigger r.0@[k]]
            0 <= k < r.0@.len() ==> r.0@[k].part == built.1@[k].part && r.0@[k].dtype
                == built.1@[k].dtype,
{
    lemma_layer_settings(config, i);
    let a = deepseek3::alloc_views(r.0@);
    let b = deepseek3::build_views(built.1@);
    assert(a.len() == r.0@.len() && b.len() == built.1@.len());
    assert forall|k: int| 0 <= k < r.0@.len() implies (#[trigger] r.0@[k]).part == built.1@[k].part
        && r.0@[k].dtype == built.1@[k].dtype by {
        assert(a[k] == r.0@[k]@);
        assert(b[k] == built.1@[k]@);
    }
}

/// What the names of a part's tensors start with: the layer, and the place that the part's weights
/// would be in. Experts and what chooses among them are below that place.
pub proof fn law_buffer_names(
    config: Config,
    keys: SharedKeys,
    dtype: DType,
    i: usize,
    built: (DeepSeekDecoderLayer, Vec<BuildStep>),
    r: (Vec<AllocStep>, Result<DeepSeekDecoderLayer, ShardError>),
)
    requires
        config.layer_wf(i),
        keys.weight || keys.weight_packed,
        call_ensures(DeepSeekDecoderLayer::new, (&config, false, keys, dtype, i), built),
        call_ensures(DeepSeekDecoderLayer::new_alloc, (&config, dtype, i), r),
        r.1 is Ok,
    ensures
        forall|k: int|
            #![trigger r.0@[k]]
            1 <= k < r.0@.len() ==> {
                let at = "model.layers."@ + text::decimal(i as nat) + "."@ + built.1@[k].at->0@;
                if r.0@[k].part is Experts {
                    &&& r.0@[k].prefix is Some && r.0@[k].gate_prefix is Some
                    &&& r.0@[k].prefix->0@ == at + ".experts"@
                    &&& r.0@[k].gate_prefix->0@ == at + ".gate"@
                } else {
                    &&& r.0@[k].prefix is Some && r.0@[k].gate_prefix is None
                    &&& r.0@[k].prefix->0@ == at
                }
            },
{
    lemma_layer_settings(config, i);
    law_layer_places(config, false, keys, dtype, i, built);
    law_buffers_have_the_same_parts(config, keys, dtype, i, built, r);
    law_layer_parts(config, false, keys, dtype, i, built);
    let a = deepseek3::alloc_views(r.0@);
    let n = r.0@.len() as int;
    assert(a.len() == n);
    reveal_strlit(".");
    reveal_strlit(".mlp");
    reveal_strlit("mlp");
    reveal_strlit(".mlp.experts");
    reveal_strlit(".experts");
    reveal_strlit(".mlp.gate");
    reveal_strlit(".gate");
    reveal_strlit(".mlp.shared_experts");
    reveal_strlit("mlp.shared_experts");
    reveal_strlit(".input_layernorm");
    reveal_strlit("input_layernorm");
    reveal_strlit(".post_attention_layernorm");
    reveal_strlit("post_attention_layernorm");
    let start = "model.layers."@ + text::decimal(i as nat);
    assert(start + ".mlp"@ =~= start + "."@ + "mlp"@);
    assert(start + ".mlp.experts"@ =~= start + "."@ + "mlp"@ + ".experts"@);
    assert(start + ".mlp.gate"@ =~= start + "."@ + "mlp"@ + ".gate"@);
    assert(start + ".mlp.shared_experts"@ =~= start + "."@ + "mlp.shared_experts"@);
    assert(start + ".input_layernorm"@ =~= start + "."@ + "input_layernorm"@);
    assert(start + ".post_attention_layernorm"@ =~= start + "."@ + "post_attention_layernorm"@);
    assert(a[1] == r.0@[1]@ && a[n - 2] == r.0@[n - 2]@ && a[n - 1] == r.0@[n - 1]@);
    if n == 5 {
        assert(a[2] == r.0@[2]@);
    }
}

/// A model has a layer for each that the settings ask for, each as it would be laid out alone, in a
/// place that its number tells, and what is reported counts them up.
pub proof fn law_model_layers(
    config: Config,
    packed: bool,
    keys: Vec<SharedKeys>,
    dtype: DType,
    is_rope_i: bool,
    table: Tensor,
    vocab_size: usize,
    r: (DeepSeekForCausalLM, ModelBuild),
    i: usize,
    alone: (DeepSeekDecoderLayer, Vec<BuildStep>),
)
    requires
        call_ensures(
            DeepSeekForCausalLM::new,
            (&config, packed, &keys, dtype, is_rope_i, table, vocab_size),
            r,
        ),
        i < config.num_hidden_layers,
        call_ensures(
            DeepSeekDecoderLayer::new,
            (&config, packed, keys@[i as int], dtype, i),
            alone,
        ),
    ensures
        r.0.layers@.len() == config.num_hidden_layers,
        r.1.layers@.len() == config.num_hidden_layers,
        r.0.layers@[i as int] == alone.0,
        ({
            let build = r.1.layers@[i as int];
            &&& build.steps@.len() == alone.1@.len()
            &&& forall|k: int|
                #![trigger build.steps@[k]]
                0 <= k < alone.1@.len() ==> {
                    let (a, b) = (build.steps@[k], alone.1@[k]);
                    &&& a.part == b.part
                    &&& a.dtype == b.dtype
                    &&& a.suffix@ == b.suffix@
                    &&& a.at is Some <==> b.at is Some
                    &&& a.at is Some ==> a.at->0@ == b.at->0@
                }
            &&& packed ==> build.at@ == "blk."@ + text::decimal(i as nat)
            &&& !packed ==> build.at@ == "model.layers."@ + text::decimal(i as nat)
            &&& build.progress == i + 1
        }),
{
    let build = r.1.layers@[i as int];
    let a = deepseek3::build_views(build.steps@);
    let b = deepseek3::build_views(alone.1@);
    assert(causal_lm::is_layer_build(build, config, packed, keys@[i as int], dtype, i));
    assert(a == b);
    assert(a.len() == build.steps@.len() && b.len() == alone.1@.len());
    assert forall|k: int| 0 <= k < alone.1@.len() implies {
        let (x, y) = (#[trigger] build.steps@[k], alone.1@[k]);
        &&& x.part == y.part
        &&& x.dtype == y.dtype
        &&& x.suffix@ == y.suffix@
        &&& x.at is Some <==> y.at is Some
        &&& x.at is Some ==> x.at->0@ == y.at->0@
    } by {
        assert(a[k] == build.steps@[k]@);
        assert(b[k] == alone.1@[k]@);
    }
}

/// What a model keeps of what it is made of.
pub proof fn law_model_keeps(
    config: Config,
    packed: bool,
    keys: Vec<SharedKeys>,
    dtype: DType,
    is_rope_i: bool,
    table: Tensor,
    vocab_size: usize,
    r: (DeepSeekForCausalLM, ModelBuild),
    told_vocab: usize,
    told_dtype: DType,
)
    requires
        call_ensures(
            DeepSeekForCausalLM::new,
            (&config, packed, &keys, dtype, is_rope_i, table, vocab_size),
            r,
        ),
        call_ensures(DeepSeekForCausalLM::get_vocab_size, (&r.0,), told_vocab),
        call_ensures(DeepSeekForCausalLM::dtype, (&r.0,), told_dtype),
    ensures
        told_vocab == vocab_size,
        told_dtype == dtype,
        r.0.embed_tokens == table,
        r.0.hidden_size == config.hidden_size,
        r.0.is_qvar_builder == packed,
        r.0.quantized <==> config.quant is Some,
        r.0.sliding_window == config.sliding_window,
{
}

/// What stands around the layers of a model. Positions are encoded with full precision if weights
/// are packed or the settings ask for it, and the norm always computes with it. The output layer
/// has the type of the model and a row for each token that came with the table, is never
/// quantized, and shares its weights with the table exactly if the settings tie them.
pub proof fn law_model_frame(
    config: Config,
    packed: bool,
    keys: Vec<SharedKeys>,
    dtype: DType,
    is_rope_i: bool,
    table: Tensor,
    vocab_size: usize,
    r: (DeepSeekForCausalLM, ModelBuild),
    embedding: EmbeddingBuild,
)
    requires
        call_ensures(
            DeepSeekForCausalLM::new,
            (&config, packed, &keys, dtype, is_rope_i, table, vocab_size),
            r,
        ),
        call_ensures(embedding_build, (&config, packed, dtype), embedding),
    ensures
        r.1.rotary.head_dim == config.qk_rope_head_dim,
        r.1.rotary.is_rope_i == is_rope_i,
        packed || config.higher_precision_required ==> r.1.rotary.dtype == DType::F32,
        !packed && !config.higher_precision_required ==> r.1.rotary.dtype == dtype,
        r.1.norm.at@ == (if packed {
            "output_norm"@
        } else {
            "model.norm"@
        }),
        r.1.norm.hidden_size == config.hidden_size,
        r.1.norm.dtype == DType::F32,
        embedding.at@ == (if packed {
            "token_embd"@
        } else {
            "model.embed_tokens"@
        }),
        embedding.vocab_size == config.vocab_size,
        embedding.hidden_size == config.hidden_size,
        embedding.dtype == dtype,
        r.1.lm_head.hidden_size == config.hidden_size,
        r.1.lm_head.vocab_size == vocab_size,
        r.1.lm_head.dtype == dtype,
        !r.1.lm_head.quantized,
        r.1.lm_head.at@ == embedding.at@ <==> config.tie_word_embeddings == Some(true),
        config.tie_word_embeddings != Some(true) ==> r.1.lm_head.at@ == (if packed {
            "output"@
        } else {
            "lm_head"@
        }),
{
    reveal_strlit("output");
    reveal_strlit("lm_head");
    reveal_strlit("token_embd");
    reveal_strlit("model.embed_tokens");
    assert("output"@.len() == 6 && "token_embd"@.len() == 10);
    assert("lm_head"@.len() == 7 && "model.embed_tokens"@.len() == 18);
}

/// How positions are encoded: with full precision if the settings ask for it, and else in the
/// type wanted.
pub proof fn law_rotary(config: Config, dtype: DType, is_rope_i: bool, r: RotaryPart)
    requires
        call_ensures(build_rotary_emb, (&config, dtype, is_rope_i), r),
    ensures
        config.higher_precision_required ==> r.dtype == DType::F32,
        !config.higher_precision_required ==> r.dtype == dtype,
        r.head_dim == config.qk_rope_head_dim,
        r.is_rope_i == is_rope_i,
{
}

/// A model made of buffers is the model that would be made of weights that are not packed, and what
/// stands around its layers is the same. Its blocks are those of the settings.
pub proof fn law_model_of_buffers(
    config: Config,
    keys: Vec<SharedKeys>,
    dtype: DType,
    is_rope_i: bool,
    table: Tensor,
    vocab_size: usize,
    built: (DeepSeekForCausalLM, ModelBuild),
    r: (ModelAlloc, Result<DeepSeekForCausalLM, ShardError>),
    blocks: Vec<usize>,
)
    requires
        config.wf(),
        call_ensures(
            DeepSeekForCausalLM::new,
            (&config, false, &keys, dtype, is_rope_i, table, vocab_size),
            built,
        ),
        call_ensures(
            DeepSeekForCausalLM::new_alloc,
            (&config, dtype, is_rope_i, table, vocab_size),
            r,
        ),
        call_ensures(Config::block_size, (&config,), blocks),
    ensures
        r.0.rotary == built.1.rotary,
        r.0.block_size@ == blocks@,
        r.1 matches Ok(model) ==> {
            &&& model.layers@ == built.0.layers@
            &&& model.embed_tokens == built.0.embed_tokens
            &&& model.hidden_size == built.0.hidden_size
            &&& model.dtype == built.0.dtype
            &&& model.vocab_size == built.0.vocab_size
            &&& model.is_qvar_builder == built.0.is_qvar_builder
            &&& model.quantized == built.0.quantized
            &&& model.sliding_window == built.0.sliding_window
            &&& r.0.norm is Some
            &&& r.0.norm->0.at@ == built.1.norm.at@
            &&& r.0.norm->0.hidden_size == built.1.norm.hidden_size
            &&& r.0.norm->0.dtype == built.1.norm.dtype
            &&& r.0.layers@.len() == config.num_hidden_layers
        },
{
    if let Ok(model) = r.1 {
        assert forall|i: int| 0 <= i < model.layers@.len() implies model.layers@[i]
            == built.0.layers@[i] by {
            let k = i as usize;
            assert(config.layer_wf(k));
            assert(deepseek3::alloc_refusal(config, k) is None);
            deepseek3::law_same_layer(config, k);
        }
        assert(model.layers@ =~= built.0.layers@);
    }
}

/// The buffers of a model are laid out layer by layer, each as it would be alone, up to the first
/// layer that is refused: its reason is that of the model. Without one, all layers are laid out.
pub proof fn law_model_buffers(
    config: Config,
    dtype: DType,
    is_rope_i: bool,
    table: Tensor,
    vocab_size: usize,
    r: (ModelAlloc, Result<DeepSeekForCausalLM, ShardError>),
    i: usize,
    alone: (Vec<AllocStep>, Result<DeepSeekDecoderLayer, ShardError>),
)
    requires
        call_ensures(
            DeepSeekForCausalLM::new_alloc,
            (&config, dtype, is_rope_i, table, vocab_size),
            r,
        ),
        i < r.0.layers@.len(),
        call_ensures(DeepSeekDecoderLayer::new_alloc, (&config, dtype, i), alone),
    ensures
        ({
            let layer = r.0.layers@[i as int];
            let last = i + 1 == r.0.layers@.len();
            &&& layer.steps@.len() == alone.0@.len()
            &&& forall|k: int|
                #![trigger layer.steps@[k]]
                0 <= k < alone.0@.len() ==> {
                    let (a, b) = (layer.steps@[k], alone.0@[k]);
                    &&& a.part == b.part
                    &&& a.dtype == b.dtype
                    &&& a.prefix is Some <==> b.prefix is Some
                    &&& a.prefix is Some ==> a.prefix->0@ == b.prefix->0@
                    &&& a.gate_prefix is Some <==> b.gate_prefix is Some
                    &&& a.gate_prefix is Some ==> a.gate_prefix->0@ == b.gate_prefix->0@
                }
            &&& alone.1 is Ok ==> layer.progress == Some((i + 1) as usize)
            &&& alone.1 is Err ==> layer.progress is None
            &&& alone.1 is Err ==> last && r.1 is Err && r.1->Err_0 == alone.1->Err_0
            &&& alone.1 is Ok && last ==> r.1 is Ok && r.0.layers@.len()
                == config.num_hidden_layers
            &&& r.1 matches Ok(model) ==> model.layers@[i as int] == alone.1->Ok_0
            &&& r.0.norm is Some <==> r.1 is Ok
        }),
{
    let layer = r.0.layers@[i as int];
    let a = deepseek3::alloc_views(layer.steps@);
    let b = deepseek3::alloc_views(alone.0@);
    assert(a == b);
    assert(a.len() == layer.steps@.len() && b.len() == alone.0@.len());
    assert forall|k: int| 0 <= k < alone.0@.len() implies {
        let (x, y) = (#[trigger] layer.steps@[k], alone.0@[k]);
        &&& x.part == y.part
        &&& x.dtype == y.dtype
        &&& x.prefix is Some <==> y.prefix is Some
        &&& x.prefix is Some ==> x.prefix->0@ == y.prefix->0@
        &&& x.gate_prefix is Some <==> y.gate_prefix is Some
        &&& x.gate_prefix is Some ==> x.gate_prefix->0@ == y.gate_prefix->0@
    } by {
        assert(a[k] == layer.steps@[k]@);
        assert(b[k] == alone.0@[k]@);
    }
    if i + 1 < r.0.layers@.len() || r.1 is Ok {
        assert(deepseek3::alloc_refusal(config, i) is None);
    }
}

/// A model completes the attention of every layer, in turn.
pub proof fn law_post_load(model: DeepSeekForCausalLM, r: Vec<LayerPart>, i: int)
    requires
        call_ensures(DeepSeekForCausalLM::post_load, (&model,), r),
    ensures
        r@.len() == model.layers@.len(),
        0 <= i < r@.len() ==> r@[i] == (LayerPart::Attention { layer_idx: i as usize }),
{
}

/// The vocabulary of the output layer is filled up to whole groups of 64 tokens, then so that it
/// divides over the ranks, then again to whole groups, each time by as little as will do. Each rank
/// has an equal part, rounded down.
pub proof fn law_vocabulary(
    vocab_size: usize,
    nproc: usize,
    r: usize,
    grouped: int,
    divided: int,
    filled: int,
)
    requires
        causal_lm::vocab_fits(vocab_size as int, nproc as int),
        call_ensures(local_vocab_of, (vocab_size, nproc), r),
        grouped % 64 == 0,
        vocab_size <= grouped < vocab_size + 64,
        divided % nproc as int == 0,
        grouped <= divided < grouped + nproc,
        filled % 64 == 0,
        divided <= filled < divided + 64,
    ensures
        r * nproc <= filled < r * nproc + nproc,
{
    lemma_least_multiple(vocab_size as int, 64, grouped);
    lemma_least_multiple(grouped, nproc as int, divided);
    lemma_least_multiple(divided, 64, filled);
    vstd::arithmetic::div_mod::lemma_fundamental_div_mod(filled, nproc as int);
    vstd::arithmetic::mul::lemma_mul_is_commutative(nproc as int, r as int);
}

/// Rounding up goes to a multiple, by less than a step.
pub proof fn lemma_rounded(n: int, step: int)
    requires
        0 <= n,
        0 < step,
    ensures
        n <= causal_lm::rounded_up(n, step) < n + step,
        causal_lm::rounded_up(n, step) % step == 0,
{
    let q = (n + step - 1) / step;
    vstd::arithmetic::div_mod::lemma_fundamental_div_mod(n + step - 1, step);
    vstd::arithmetic::mul::lemma_mul_is_commutative(q, step);
    vstd::arithmetic::div_mod::lemma_mod_multiples_basic(q, step);
}

proof fn lemma_least_multiple(n: int, step: int, m: int)
    requires
        0 <= n,
        0 < step,
        m % step == 0,
        n <= m < n + step,
    ensures
        causal_lm::rounded_up(n, step) == m,
{
    vstd::arithmetic::div_mod::lemma_fundamental_div_mod(m, step);
    let q = m / step;
    let rest = n + step - 1 - m;
    assert(n + step - 1 == q * step + rest) by (nonlinear_arith)
        requires
            m == step * q,
            rest == n + step - 1 - m,
    ;
    vstd::arithmetic::div_mod::lemma_fundamental_div_mod_converse(n + step - 1, step, q, rest);
    vstd::arithmetic::mul::lemma_mul_is_commutative(q, step);
}

} // verus!
