//! Putting a DeepSeek model together: which parts a model has, and where their weights are.
//!
//! A model is built either from weights that are at hand, or as empty buffers that are filled
//! later. In both cases the parts are laid out here, in the order in which they are made.

use crate::models::config::Config;
use crate::utils::error::ShardError;
use crate::utils::text;
use crate::utils::text::{decimal_of, joined};
use candle_core::DType;
use vstd::prelude::*;
use vstd::string::*;

verus! {

/// What a layer sends its tokens through behind the attention.
#[derive(Debug, Clone, Copy, PartialEq, Eq, Structural)]
pub enum MoeOrMlp {
    FusedMoe,
    FusedMoeFp8,
    FusedMoeGGUF,
    FusedMoeISQ,
    Mlp,
}

/// A layer of the model: attention, then experts or a plain perceptron, and perhaps an expert
/// that every token goes through.
#[derive(Debug, Clone, Copy, PartialEq, Eq, Structural)]
pub struct DeepSeekDecoderLayer {
    pub mlp: MoeOrMlp,
    pub shared_expert: bool,
}

/// Which of the weights are there that tell how shared experts are named.
#[derive(Debug, Clone, Copy, PartialEq, Eq, Structural)]
pub struct SharedKeys {
    /// `mlp.shared_experts.gate_proj.weight`
    pub weight: bool,
    /// `mlp.shared_experts.gate_proj.weight_packed`
    pub weight_packed: bool,
}

/// A part of a layer, with the sizes that it takes.
#[derive(Debug, Clone, Copy, PartialEq, Eq, Structural)]
pub enum LayerPart {
    Attention { layer_idx: usize },
    Experts { kind: MoeOrMlp },
    Mlp { hidden_size: usize, intermediate_size: usize },
    SharedExpert { hidden_size: usize, intermediate_size: usize },
    InputNorm { hidden_size: usize },
    PostAttentionNorm { hidden_size: usize },
}

/// Making a part of a layer out of the weights of the layer.
#[derive(Debug)]
pub struct BuildStep {
    pub part: LayerPart,
    /// Where the weights are below those of the layer; `None` if they are not below.
    pub at: Option<String>,
    /// What the names of the weights end in.
    pub suffix: String,
    pub dtype: DType,
}

/// A step over texts.
pub struct BuildStepView {
    pub part: LayerPart,
    pub at: Option<Seq<char>>,
    pub suffix: Seq<char>,
    pub dtype: DType,
}

impl View for BuildStep {
    type V = BuildStepView;

    open spec fn view(&self) -> BuildStepView {
        BuildStepView {
            part: self.part,
            at: match self.at {
                Some(s) => Some(s@),
                None => None,
            },
            suffix: self.suffix@,
            dtype: self.dtype,
        }
    }
}

/// The steps over texts.
pub open spec fn build_views(steps: Seq<BuildStep>) -> Seq<BuildStepView> {
    steps.map_values(|s: BuildStep| s@)
}

/// What a layer sends its tokens through. Packed weights have experts of their own; else it
/// depends on how the weights are quantized, or are to be.
pub open spec fn mlp_kind(config: Config, is_qvar_builder: bool, layer_idx: usize) -> MoeOrMlp {
    if !config.moe_cfg->0.has_experts(layer_idx) {
        MoeOrMlp::Mlp
    } else if is_qvar_builder {
        MoeOrMlp::FusedMoeGGUF
    } else if config.quantization_config is Some {
        if config.is_fp8() {
            MoeOrMlp::FusedMoeFp8
        } else {
            MoeOrMlp::FusedMoe
        }
    } else if config.quant is Some {
        MoeOrMlp::FusedMoeISQ
    } else {
        MoeOrMlp::FusedMoe
    }
}

/// The size of the expert that every token goes through in a layer, if it has one.
pub open spec fn shared_in_layer(config: Config, layer_idx: usize) -> Option<int> {
    if config.moe_cfg->0.has_experts(layer_idx) {
        config.moe_cfg->0.shared_size()
    } else {
        None
    }
}

/// A layer made of weights that are at hand.
pub open spec fn layer_of(
    config: Config,
    is_qvar_builder: bool,
    layer_idx: usize,
) -> DeepSeekDecoderLayer {
    DeepSeekDecoderLayer {
        mlp: mlp_kind(config, is_qvar_builder, layer_idx),
        shared_expert: shared_in_layer(config, layer_idx) is Some,
    }
}

/// Where a part's weights are: packed weights are all in one place.
pub open spec fn place(is_qvar_builder: bool, at: Seq<char>) -> Option<Seq<char>> {
    if is_qvar_builder {
        None
    } else {
        Some(at)
    }
}

/// A step for a part whose names have no ending of their own.
pub open spec fn plain_step(
    part: LayerPart,
    at: Option<Seq<char>>,
    dtype: DType,
) -> BuildStepView {
    BuildStepView { part, at, suffix: ""@, dtype }
}

/// The attention of a layer.
pub open spec fn attention_step(
    is_qvar_builder: bool,
    layer_idx: usize,
    dtype: DType,
) -> BuildStepView {
    plain_step(LayerPart::Attention { layer_idx }, place(is_qvar_builder, "self_attn"@), dtype)
}

/// What a layer sends its tokens through.
pub open spec fn mlp_step(
    config: Config,
    is_qvar_builder: bool,
    layer_idx: usize,
    dtype: DType,
) -> BuildStepView {
    let kind = mlp_kind(config, is_qvar_builder, layer_idx);
    plain_step(
        if kind == MoeOrMlp::Mlp {
            LayerPart::Mlp {
                hidden_size: config.hidden_size,
                intermediate_size: config.intermediate_size,
            }
        } else {
            LayerPart::Experts { kind }
        },
        place(is_qvar_builder, "mlp"@),
        dtype,
    )
}

/// The expert that every token goes through.
pub open spec fn shared_step(
    config: Config,
    is_qvar_builder: bool,
    size: usize,
    keys: SharedKeys,
    dtype: DType,
) -> BuildStepView {
    BuildStepView {
        part: LayerPart::SharedExpert { hidden_size: config.hidden_size, intermediate_size: size },
        at: place(
            is_qvar_builder,
            if keys.weight || keys.weight_packed {
                "mlp.shared_experts"@
            } else {
                "mlp.shared_expert"@
            },
        ),
        suffix: if is_qvar_builder {
            "_shexp"@
        } else {
            ""@
        },
        dtype,
    }
}

/// The two norms of a layer.
pub open spec fn norm_steps(config: Config, is_qvar_builder: bool) -> Seq<BuildStepView> {
    seq![
        plain_step(
            LayerPart::InputNorm { hidden_size: config.hidden_size },
            Some(
                if is_qvar_builder {
                    "attn_norm"@
                } else {
                    "input_layernorm"@
                },
            ),
            DType::F32,
        ),
        plain_step(
            LayerPart::PostAttentionNorm { hidden_size: config.hidden_size },
            Some(
                if is_qvar_builder {
                    "ffn_norm"@
                } else {
                    "post_attention_layernorm"@
                },
            ),
            DType::F32,
        ),
    ]
}

/// The steps by which a layer is made of weights that are at hand.
pub open spec fn layer_steps(
    config: Config,
    is_qvar_builder: bool,
    layer_idx: usize,
    keys: SharedKeys,
    dtype: DType,
) -> Seq<BuildStepView> {
    let start = seq![
        attention_step(is_qvar_builder, layer_idx, dtype),
        mlp_step(config, is_qvar_builder, layer_idx, dtype),
    ];
    let middle = match shared_in_layer(config, layer_idx) {
        Some(size) => start.push(shared_step(config, is_qvar_builder, size as usize, keys, dtype)),
        None => start,
    };
    middle + norm_steps(config, is_qvar_builder)
}

fn place_of(is_qvar_builder: bool, at: &str) -> (r: Option<String>)
    ensures
        match r {
            Some(s) => place(is_qvar_builder, at@) == Some(s@),
            None => place(is_qvar_builder, at@) is None,
        },
{
    if is_qvar_builder {
        None
    } else {
        Some(at.to_owned())
    }
}

fn step_of(part: LayerPart, at: Option<String>, dtype: DType) -> (r: BuildStep)
    ensures
        r@ == plain_step(
            part,
            match at {
                Some(s) => Some(s@),
                None => None,
            },
            dtype,
        ),
{
    BuildStep { part, at, suffix: "".to_owned(), dtype }
}

impl DeepSeekDecoderLayer {
    /// Lays out a layer that is made of weights that are at hand, and the steps that make it.
    pub fn new(
        config: &Config,
        is_qvar_builder: bool,
        keys: SharedKeys,
        dtype: DType,
        layer_idx: usize,
    ) -> (r: (DeepSeekDecoderLayer, Vec<BuildStep>))
        requires
            config.layer_wf(layer_idx),
        ensures
            r.0 == layer_of(*config, is_qvar_builder, layer_idx),
            build_views(r.1@) == layer_steps(*config, is_qvar_builder, layer_idx, keys, dtype),
    {
        let moe_cfg = config.moe_cfg.unwrap();
        let mut steps: Vec<BuildStep> = Vec::new();
        steps.push(
            step_of(
                LayerPart::Attention { layer_idx },
                place_of(is_qvar_builder, "self_attn"),
                dtype,
            ),
        );
        let is_moe_layer = moe_cfg.layer_has_experts(layer_idx);
        let mlp = if !is_moe_layer {
            MoeOrMlp::Mlp
        } else if is_qvar_builder {
            MoeOrMlp::FusedMoeGGUF
        } else if config.quantization_config.is_some() {
            if config.uses_fp8() {
                MoeOrMlp::FusedMoeFp8
            } else {
                MoeOrMlp::FusedMoe
            }
        } else if config.quant.is_some() {
            MoeOrMlp::FusedMoeISQ
        } else {
            MoeOrMlp::FusedMoe
        };
        let part = if is_moe_layer {
            LayerPart::Experts { kind: mlp }
        } else {
            LayerPart::Mlp {
                hidden_size: config.hidden_size,
                intermediate_size: config.intermediate_size,
            }
        };
        steps.push(step_of(part, place_of(is_qvar_builder, "mlp"), dtype));
        let ghost start = seq![
            attention_step(is_qvar_builder, layer_idx, dtype),
            mlp_step(*config, is_qvar_builder, layer_idx, dtype),
        ];
        assert(build_views(steps@) =~= start);
        let shared = if is_moe_layer {
            moe_cfg.shared_expert_size()
        } else {
            None
        };
        if let Some(size) = shared {
            let at = if keys.weight || keys.weight_packed {
                place_of(is_qvar_builder, "mlp.shared_experts")
            } else {
                place_of(is_qvar_builder, "mlp.shared_expert")
            };
            let suffix = if is_qvar_builder {
                "_shexp".to_owned()
            } else {
                "".to_owned()
            };
            steps.push(
                BuildStep {
                    part: LayerPart::SharedExpert {
                        hidden_size: config.hidden_size,
                        intermediate_size: size,
                    },
                    at,
                    suffix,
                    dtype,
                },
            );
            assert(build_views(steps@) =~= start.push(
                shared_step(*config, is_qvar_builder, size, keys, dtype),
            ));
        }
        let ghost middle = build_views(steps@);
        let (first_norm, second_norm) = if is_qvar_builder {
            ("attn_norm", "ffn_norm")
        } else {
            ("input_layernorm", "post_attention_layernorm")
        };
        steps.push(
            step_of(
                LayerPart::InputNorm { hidden_size: config.hidden_size },
                Some(first_norm.to_owned()),
                DType::F32,
            ),
        );
        steps.push(
            step_of(
                LayerPart::PostAttentionNorm { hidden_size: config.hidden_size },
                Some(second_norm.to_owned()),
                DType::F32,
            ),
        );
        assert(build_views(steps@) =~= middle + norm_steps(*config, is_qvar_builder));
        (DeepSeekDecoderLayer { mlp, shared_expert: shared.is_some() }, steps)
    }
}

/// Making empty buffers for a part of a layer.
#[derive(Debug)]
pub struct AllocStep {
    pub part: LayerPart,
    /// What the names of the part's tensors start with; attention has names of its own.
    pub prefix: Option<String>,
    /// What the names of the tensors start with that choose among experts.
    pub gate_prefix: Option<String>,
    pub dtype: DType,
}

/// A step over texts.
pub struct AllocStepView {
    pub part: LayerPart,
    pub prefix: Option<Seq<char>>,
    pub gate_prefix: Option<Seq<char>>,
    pub dtype: DType,
}

impl View for AllocStep {
    type V = AllocStepView;

    open spec fn view(&self) -> AllocStepView {
        AllocStepView {
            part: self.part,
            prefix: match self.prefix {
                Some(s) => Some(s@),
                None => None,
            },
            gate_prefix: match self.gate_prefix {
                Some(s) => Some(s@),
                None => None,
            },
            dtype: self.dtype,
        }
    }
}

/// The steps over texts.
pub open spec fn alloc_views(steps: Seq<AllocStep>) -> Seq<AllocStepView> {
    steps.map_values(|s: AllocStep| s@)
}

/// The name of a part of a layer.
pub open spec fn layer_name(layer_idx: usize, part: Seq<char>) -> Seq<char> {
    "model.layers."@ + text::decimal(layer_idx as nat) + part
}

fn layer_name_of(layer_idx: usize, part: &str) -> (r: String)
    ensures
        r@ == layer_name(layer_idx, part@),
{
    let mut s = joined("model.layers.", decimal_of(layer_idx).as_str());
    s.append(part);
    s
}

/// A step for a part whose tensors share a prefix.
pub open spec fn named_step(
    part: LayerPart,
    layer_idx: usize,
    name: Seq<char>,
    dtype: DType,
) -> AllocStepView {
    AllocStepView {
        part,
        prefix: Some(layer_name(layer_idx, name)),
        gate_prefix: None,
        dtype,
    }
}

fn named_step_of(part: LayerPart, layer_idx: usize, name: &str, dtype: DType) -> (r: AllocStep)
    ensures
        r@ == named_step(part, layer_idx, name@, dtype),
{
    AllocStep { part, prefix: Some(layer_name_of(layer_idx, name)), gate_prefix: None, dtype }
}

/// Why no buffers can be laid out for a layer, if so: for experts only blocks of 8-bit floating
/// point numbers will do.
pub open spec fn alloc_refusal(config: Config, layer_idx: usize) -> Option<ShardError> {
    if !config.moe_cfg->0.has_experts(layer_idx) {
        None
    } else if config.quantization_config is None {
        Some(ShardError::MoeNotQuantized)
    } else if !config.is_fp8() {
        Some(ShardError::MoeQuantUnsupported)
    } else {
        None
    }
}

/// The buffers of a layer can be laid out: the model is one with experts, and unless the layer is
/// refused, the layer can be laid out.
pub open spec fn alloc_wf(config: Config, layer_idx: usize) -> bool {
    &&& config.moe_cfg is Some
    &&& alloc_refusal(config, layer_idx) is None ==> config.layer_wf(layer_idx)
}

/// Tests whether the buffers of all layers can be laid out.
pub fn all_buffers_are_wf(config: &Config) -> (r: bool)
    ensures
        r == forall|i: usize| 0 <= i < config.num_hidden_layers ==> #[trigger] alloc_wf(*config, i),
{
    if config.num_hidden_layers == 0 {
        return true;
    }
    let last: usize = config.num_hidden_layers - 1;
    let r = match config.moe_cfg {
        Some(moe) => config.layer_is_wf(last) || (moe.layer_has_experts(last)
            && !config.uses_fp8()),
        None => false,
    };
    proof {
        assert(r == alloc_wf(*config, last));
        if r {
            assert forall|i: usize| 0 <= i < config.num_hidden_layers implies #[trigger] alloc_wf(
                *config,
                i,
            ) by {
                if config.moe_cfg->0.has_experts(i) {
                    assert(config.moe_cfg->0.has_experts(last));
                }
            }
        }
    }
    r
}

/// The buffers for the attention of a layer.
pub open spec fn attention_alloc(layer_idx: usize, dtype: DType) -> AllocStepView {
    AllocStepView {
        part: LayerPart::Attention { layer_idx },
        prefix: None,
        gate_prefix: None,
        dtype,
    }
}

/// The buffers for what a layer sends its tokens through.
pub open spec fn mlp_alloc(config: Config, layer_idx: usize, dtype: DType) -> AllocStepView {
    if config.moe_cfg->0.has_experts(layer_idx) {
        AllocStepView {
            part: LayerPart::Experts { kind: MoeOrMlp::FusedMoeFp8 },
            prefix: Some(layer_name(layer_idx, ".mlp.experts"@)),
            gate_prefix: Some(layer_name(layer_idx, ".mlp.gate"@)),
            dtype,
        }
    } else {
        named_step(
            LayerPart::Mlp {
                hidden_size: config.hidden_size,
                intermediate_size: config.intermediate_size,
            },
            layer_idx,
            ".mlp"@,
            dtype,
        )
    }
}

/// The buffers for the two norms of a layer.
pub open spec fn norm_allocs(config: Config, layer_idx: usize) -> Seq<AllocStepView> {
    seq![
        named_step(
            LayerPart::InputNorm { hidden_size: config.hidden_size },
            layer_idx,
            ".input_layernorm"@,
            DType::F32,
        ),
        named_step(
            LayerPart::PostAttentionNorm { hidden_size: config.hidden_size },
            layer_idx,
            ".post_attention_layernorm"@,
            DType::F32,
        ),
    ]
}

/// The steps by which the buffers of a layer are made. Where a layer is refused, only those for
/// its attention have been made before.
pub open spec fn alloc_steps(config: Config, layer_idx: usize, dtype: DType) -> Seq<AllocStepView> {
    let start = seq![attention_alloc(layer_idx, dtype)];
    if alloc_refusal(config, layer_idx) is Some {
        start
    } else {
        let middle = start.push(mlp_alloc(config, layer_idx, dtype));
        let shared = match shared_in_layer(config, layer_idx) {
            Some(size) => middle.push(
                named_step(
                    LayerPart::SharedExpert {
                        hidden_size: config.hidden_size,
                        intermediate_size: size as usize,
                    },
                    layer_idx,
                    ".mlp.shared_experts"@,
                    dtype,
                ),
            ),
            None => middle,
        };
        shared + norm_allocs(config, layer_idx)
    }
}

/// A layer made of buffers.
pub open spec fn alloc_layer(config: Config, layer_idx: usize) -> DeepSeekDecoderLayer {
    DeepSeekDecoderLayer {
        mlp: if config.moe_cfg->0.has_experts(layer_idx) {
            MoeOrMlp::FusedMoeFp8
        } else {
            MoeOrMlp::Mlp
        },
        shared_expert: shared_in_layer(config, layer_idx) is Some,
    }
}

impl DeepSeekDecoderLayer {
    /// Lays out the steps that make the empty buffers of a layer, and the layer, or why there is
    /// none after these steps.
    pub fn new_alloc(config: &Config, dtype: DType, layer_idx: usize) -> (r: (
        Vec<AllocStep>,
        Result<DeepSeekDecoderLayer, ShardError>,
    ))
        requires
            alloc_wf(*config, layer_idx),
        ensures
            alloc_views(r.0@) == alloc_steps(*config, layer_idx, dtype),
            match r.1 {
                Ok(layer) => {
                    &&& alloc_refusal(*config, layer_idx) is None
                    &&& layer == alloc_layer(*config, layer_idx)
                },
                Err(e) => alloc_refusal(*config, layer_idx) == Some(e),
            },
    {
        let moe_cfg = config.moe_cfg.unwrap();
        let mut steps: Vec<AllocStep> = Vec::new();
        steps.push(
            AllocStep {
                part: LayerPart::Attention { layer_idx },
                prefix: None,
                gate_prefix: None,
                dtype,
            },
        );
        assert(alloc_views(steps@) =~= seq![attention_alloc(layer_idx, dtype)]);
        let is_moe_layer = moe_cfg.layer_has_experts(layer_idx);
        if is_moe_layer {
            if config.quantization_config.is_none() {
                return (steps, Err(ShardError::MoeNotQuantized));
            }
            if !config.uses_fp8() {
                return (steps, Err(ShardError::MoeQuantUnsupported));
            }
            steps.push(
                AllocStep {
                    part: LayerPart::Experts { kind: MoeOrMlp::FusedMoeFp8 },
                    prefix: Some(layer_name_of(layer_idx, ".mlp.experts")),
                    gate_prefix: Some(layer_name_of(layer_idx, ".mlp.gate")),
                    dtype,
                },
            );
        } else {
            steps.push(
                named_step_of(
                    LayerPart::Mlp {
                        hidden_size: config.hidden_size,
                        intermediate_size: config.intermediate_size,
                    },
                    layer_idx,
                    ".mlp",
                    dtype,
                ),
            );
        }
        let ghost middle = seq![attention_alloc(layer_idx, dtype)].push(
            mlp_alloc(*config, layer_idx, dtype),
        );
        assert(alloc_views(steps@) =~= middle);
        let shared = if is_moe_layer {
            moe_cfg.shared_expert_size()
        } else {
            None
        };
        if let Some(size) = shared {
            steps.push(
                named_step_of(
                    LayerPart::SharedExpert {
                        hidden_size: config.hidden_size,
                        intermediate_size: size,
                    },
                    layer_idx,
                    ".mlp.shared_experts",
                    dtype,
                ),
            );
            assert(alloc_views(steps@) =~= middle.push(steps@.last()@));
        }
        let ghost before = alloc_views(steps@);
        steps.push(
            named_step_of(
                LayerPart::InputNorm { hidden_size: config.hidden_size },
                layer_idx,
                ".input_layernorm",
                DType::F32,
            ),
        );
        steps.push(
            named_step_of(
                LayerPart::PostAttentionNorm { hidden_size: config.hidden_size },
                layer_idx,
                ".post_attention_layernorm",
                DType::F32,
            ),
        );
        assert(alloc_views(steps@) =~= before + norm_allocs(*config, layer_idx));
        let mlp = if is_moe_layer {
            MoeOrMlp::FusedMoeFp8
        } else {
            MoeOrMlp::Mlp
        };
        (steps, Ok(DeepSeekDecoderLayer { mlp, shared_expert: shared.is_some() }))
    }

    /// The part that is completed once the weights of a layer are there.
    pub fn post_load(&self, layer_idx: usize) -> (r: LayerPart)
        ensures
            r == (LayerPart::Attention { layer_idx }),
    {
        LayerPart::Attention { layer_idx }
    }
}

/// A layer made of buffers is the layer that would be made of the weights, if these are not
/// packed.
pub proof fn law_same_layer(config: Config, layer_idx: usize)
    requires
        config.layer_wf(layer_idx),
        alloc_refusal(config, layer_idx) is None,
    ensures
        alloc_layer(config, layer_idx) == layer_of(config, false, layer_idx),
{
}

/// A layer made of buffers has a step for each part that it would have if it were made of the
/// weights, of the same sizes and in the same order.
pub proof fn law_same_parts(config: Config, layer_idx: usize, keys: SharedKeys, dtype: DType)
    requires
        config.layer_wf(layer_idx),
        alloc_refusal(config, layer_idx) is None,
    ensures
        alloc_steps(config, layer_idx, dtype).map_values(|s: AllocStepView| s.part) == layer_steps(
            config,
            false,
            layer_idx,
            keys,
            dtype,
        ).map_values(|s: BuildStepView| s.part),
{
    assert(alloc_steps(config, layer_idx, dtype).map_values(|s: AllocStepView| s.part)
        =~= layer_steps(config, false, layer_idx, keys, dtype).map_values(
        |s: BuildStepView| s.part,
    ));
}

} // verus!
