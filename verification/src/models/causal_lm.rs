//! A whole model: the table of token vectors, the layers, and the output layer.

use crate::models::config::Config;
use crate::models::deepseek3;
use crate::models::deepseek3::{AllocStep, BuildStep, DeepSeekDecoderLayer, LayerPart, SharedKeys};
use crate::utils::convert;
use crate::utils::error::ShardError;
use crate::utils::shards;
use crate::utils::tensor;
use crate::utils::tensor_index;
use crate::utils::tensor_index::{Dist, TensorIndex, TensorMeta, TensorShape};
use crate::utils::text;
use crate::utils::text::{decimal_of, joined};
use crate::utils::transfer;
use crate::utils::transfer::Target;
use candle_core::{DType, Device, Tensor};
use vstd::arithmetic::div_mod::lemma_fundamental_div_mod;
use vstd::prelude::*;

verus! {

/// A model.
pub struct DeepSeekForCausalLM {
    /// One row for each token.
    pub embed_tokens: Tensor,
    pub hidden_size: usize,
    pub layers: Vec<DeepSeekDecoderLayer>,
    pub dtype: DType,
    pub vocab_size: usize,
    pub is_qvar_builder: bool,
    /// Whether the weights were quantized while they were loaded.
    pub quantized: bool,
    /// How far back tokens are seen, if not all the way.
    pub sliding_window: Option<usize>,
}

/// How positions are encoded: in which type, in how many dimensions of a head, and whether
/// neighbours are paired. No part of these dimensions is left out.
#[derive(Debug, Clone, Copy)]
pub struct RotaryPart {
    pub dtype: DType,
    pub head_dim: usize,
    pub is_rope_i: bool,
}

/// Making a layer of weights that are at hand.
#[derive(Debug)]
pub struct LayerBuild {
    /// Where the weights of the layer are.
    pub at: String,
    pub steps: Vec<BuildStep>,
    /// How many layers are there afterwards.
    pub progress: usize,
}

/// Making the table of token vectors.
#[derive(Debug)]
pub struct EmbeddingBuild {
    pub at: String,
    pub vocab_size: usize,
    pub hidden_size: usize,
    pub dtype: DType,
}

/// Making the norm behind the layers.
#[derive(Debug)]
pub struct NormBuild {
    pub at: String,
    pub hidden_size: usize,
    pub dtype: DType,
}

/// Making the output layer.
#[derive(Debug)]
pub struct HeadBuild {
    pub at: String,
    pub hidden_size: usize,
    pub vocab_size: usize,
    pub dtype: DType,
    /// Whether the settings for quantized weights hold for it.
    pub quantized: bool,
}

/// Making everything behind the table of token vectors, in this order.
#[derive(Debug)]
pub struct ModelBuild {
    pub rotary: RotaryPart,
    pub layers: Vec<LayerBuild>,
    pub norm: NormBuild,
    pub lm_head: HeadBuild,
}

/// Where the table of token vectors is.
pub open spec fn embedding_place(is_qvar_builder: bool) -> Seq<char> {
    if is_qvar_builder {
        "token_embd"@
    } else {
        "model.embed_tokens"@
    }
}

/// Where a layer is.
pub open spec fn layer_place(is_qvar_builder: bool, i: usize) -> Seq<char> {
    if is_qvar_builder {
        "blk."@ + text::decimal(i as nat)
    } else {
        "model.layers."@ + text::decimal(i as nat)
    }
}

/// Where the norm behind the layers is.
pub open spec fn norm_place(is_qvar_builder: bool) -> Seq<char> {
    if is_qvar_builder {
        "output_norm"@
    } else {
        "model.norm"@
    }
}

/// Where the weights of the output layer are: those of the table of token vectors, if they are
/// tied.
pub open spec fn lm_head_place(tied: Option<bool>, is_qvar_builder: bool) -> Seq<char> {
    if tied == Some(true) {
        embedding_place(is_qvar_builder)
    } else if is_qvar_builder {
        "output"@
    } else {
        "lm_head"@
    }
}

/// How positions are encoded in a model.
pub open spec fn rotary_of(config: Config, wanted: DType, is_rope_i: bool) -> RotaryPart {
    RotaryPart {
        dtype: if config.higher_precision_required {
            DType::F32
        } else {
            wanted
        },
        head_dim: config.qk_rope_head_dim,
        is_rope_i,
    }
}

/// The type that positions are wanted in.
pub open spec fn wanted_dtype(config: Config, is_qvar_builder: bool, dtype: DType) -> DType {
    if is_qvar_builder || config.higher_precision_required {
        DType::F32
    } else {
        dtype
    }
}

/// Lays out how positions are encoded.
pub fn build_rotary_emb(config: &Config, dtype: DType, is_rope_i: bool) -> (r: RotaryPart)
    ensures
        r == rotary_of(*config, dtype, is_rope_i),
{
    let emb_dtype = if config.higher_precision_required {
        DType::F32
    } else {
        dtype
    };
    RotaryPart { dtype: emb_dtype, head_dim: config.qk_rope_head_dim, is_rope_i }
}

fn embedding_place_of(is_qvar_builder: bool) -> (r: &'static str)
    ensures
        r@ == embedding_place(is_qvar_builder),
{
    if is_qvar_builder {
        "token_embd"
    } else {
        "model.embed_tokens"
    }
}

/// Lays out the table of token vectors.
pub fn embedding_build(config: &Config, is_qvar_builder: bool, dtype: DType) -> (r: EmbeddingBuild)
    ensures
        r.at@ == embedding_place(is_qvar_builder),
        r.vocab_size == config.vocab_size,
        r.hidden_size == config.hidden_size,
        r.dtype == dtype,
{
    EmbeddingBuild {
        at: embedding_place_of(is_qvar_builder).to_owned(),
        vocab_size: config.vocab_size,
        hidden_size: config.hidden_size,
        dtype,
    }
}

/// The norm behind the layers, which computes with full precision.
pub open spec fn is_norm_build(b: NormBuild, config: Config, is_qvar_builder: bool) -> bool {
    &&& b.at@ == norm_place(is_qvar_builder)
    &&& b.hidden_size == config.hidden_size
    &&& b.dtype == DType::F32
}

/// The output layer, which is never quantized.
pub open spec fn is_head_build(
    b: HeadBuild,
    config: Config,
    is_qvar_builder: bool,
    vocab_size: usize,
    dtype: DType,
) -> bool {
    &&& b.at@ == lm_head_place(config.tie_word_embeddings, is_qvar_builder)
    &&& b.hidden_size == config.hidden_size
    &&& b.vocab_size == vocab_size
    &&& b.dtype == dtype
    &&& !b.quantized
}

fn layer_place_of(is_qvar_builder: bool, i: usize) -> (r: String)
    ensures
        r@ == layer_place(is_qvar_builder, i),
{
    let n = decimal_of(i);
    if is_qvar_builder {
        joined("blk.", n.as_str())
    } else {
        joined("model.layers.", n.as_str())
    }
}

/// The steps for layer `i` of a model.
pub open spec fn is_layer_build(
    b: LayerBuild,
    config: Config,
    is_qvar_builder: bool,
    keys: SharedKeys,
    dtype: DType,
    i: usize,
) -> bool {
    &&& b.at@ == layer_place(is_qvar_builder, i)
    &&& b.progress == i + 1
    &&& deepseek3::build_views(b.steps@) == deepseek3::layer_steps(
        config,
        is_qvar_builder,
        i,
        keys,
        dtype,
    )
}

impl DeepSeekForCausalLM {
    /// Lays out a model made of weights that are at hand, around its table of token vectors and
    /// the number of tokens that came with it. `keys` tells for each layer how its shared
    /// experts are named.
    pub fn new(
        config: &Config,
        is_qvar_builder: bool,
        keys: &Vec<SharedKeys>,
        dtype: DType,
        is_rope_i: bool,
        embed_tokens: Tensor,
        vocab_size: usize,
    ) -> (r: (DeepSeekForCausalLM, ModelBuild))
        requires
            config.wf(),
            keys@.len() == config.num_hidden_layers,
        ensures
            ({
                let (model, build) = r;
                let n = config.num_hidden_layers as int;
                &&& model.embed_tokens == embed_tokens
                &&& model.hidden_size == config.hidden_size
                &&& model.dtype == dtype
                &&& model.vocab_size == vocab_size
                &&& model.is_qvar_builder == is_qvar_builder
                &&& model.quantized == config.quant is Some
                &&& model.sliding_window == config.sliding_window
                &&& model.layers@ == Seq::new(
                    n as nat,
                    |i: int| deepseek3::layer_of(*config, is_qvar_builder, i as usize),
                )
                &&& build.rotary == rotary_of(
                    *config,
                    wanted_dtype(*config, is_qvar_builder, dtype),
                    is_rope_i,
                )
                &&& build.layers@.len() == n
                &&& forall|i: int|
                    0 <= i < n ==> is_layer_build(
                        #[trigger] build.layers@[i],
                        *config,
                        is_qvar_builder,
                        keys@[i],
                        dtype,
                        i as usize,
                    )
                &&& is_norm_build(build.norm, *config, is_qvar_builder)
                &&& is_head_build(build.lm_head, *config, is_qvar_builder, vocab_size, dtype)
            }),
    {
        let emb_dtype = if is_qvar_builder || config.higher_precision_required {
            DType::F32
        } else {
            dtype
        };
        let rotary = build_rotary_emb(config, emb_dtype, is_rope_i);
        let n: usize = config.num_hidden_layers;
        let mut layers: Vec<DeepSeekDecoderLayer> = Vec::new();
        let mut builds: Vec<LayerBuild> = Vec::new();
        let mut i: usize = 0;
        while i < n
            invariant
                i <= n,
                n == config.num_hidden_layers,
                config.wf(),
                keys@.len() == n,
                layers@ == Seq::new(
                    i as nat,
                    |k: int| deepseek3::layer_of(*config, is_qvar_builder, k as usize),
                ),
                builds@.len() == i,
                forall|k: int|
                    0 <= k < i ==> is_layer_build(
                        #[trigger] builds@[k],
                        *config,
                        is_qvar_builder,
                        keys@[k],
                        dtype,
                        k as usize,
                    ),
            decreases n - i,
        {
            let (layer, steps) = DeepSeekDecoderLayer::new(
                config,
                is_qvar_builder,
                keys[i],
                dtype,
                i,
            );
            layers.push(layer);
            builds.push(
                LayerBuild { at: layer_place_of(is_qvar_builder, i), steps, progress: i + 1 },
            );
            i = i + 1;
            assert(layers@ =~= Seq::new(
                i as nat,
                |k: int| deepseek3::layer_of(*config, is_qvar_builder, k as usize),
            ));
        }
        let norm_at = if is_qvar_builder {
            "output_norm".to_owned()
        } else {
            "model.norm".to_owned()
        };
        let tied = match config.tie_word_embeddings {
            Some(x) => x,
            None => false,
        };
        let lm_head_at = if tied {
            embedding_place_of(is_qvar_builder).to_owned()
        } else if is_qvar_builder {
            "output".to_owned()
        } else {
            "lm_head".to_owned()
        };
        let model = DeepSeekForCausalLM {
            embed_tokens,
            hidden_size: config.hidden_size,
            layers,
            dtype,
            vocab_size,
            is_qvar_builder,
            quantized: config.quant.is_some(),
            sliding_window: config.sliding_window,
        };
        let norm = NormBuild {
            at: norm_at,
            hidden_size: config.hidden_size,
            dtype: DType::F32,
        };
        let lm_head = HeadBuild {
            at: lm_head_at,
            hidden_size: config.hidden_size,
            vocab_size,
            dtype,
            quantized: false,
        };
        (model, ModelBuild { rotary, layers: builds, norm, lm_head })
    }
}

/// Making the buffers of a layer.
#[derive(Debug)]
pub struct LayerAlloc {
    pub steps: Vec<AllocStep>,
    /// How many layers are there afterwards; nothing is reported of a layer that is refused.
    pub progress: Option<usize>,
}

/// Making the buffers of everything between the table of token vectors and the output layer, in
/// this order.
#[derive(Debug)]
pub struct ModelAlloc {
    pub rotary: RotaryPart,
    /// The blocks that share a scale.
    pub block_size: Vec<usize>,
    pub layers: Vec<LayerAlloc>,
    /// There is none behind a layer that is refused.
    pub norm: Option<NormBuild>,
}

/// How many layers are there once layer `i` has been made, unless it is refused.
pub open spec fn progress_of(config: Config, i: usize) -> Option<usize> {
    if deepseek3::alloc_refusal(config, i) is None {
        Some((i + 1) as usize)
    } else {
        None
    }
}

/// What is reported when the first layers have been gone through.
pub open spec fn reported(layers: Seq<LayerAlloc>) -> Seq<usize>
    decreases layers.len(),
{
    if layers.len() == 0 {
        Seq::empty()
    } else {
        let before = reported(layers.drop_last());
        match layers.last().progress {
            Some(n) => before.push(n),
            None => before,
        }
    }
}

/// What is reported is the number of layers made so far, each time by one more. A layer that is
/// refused is not reported: the reports then end with the number of layers before it.
pub proof fn law_reports(config: Config, layers: Seq<LayerAlloc>)
    requires
        layers.len() <= config.num_hidden_layers,
        none_refused(config, layers.len() - 1),
        forall|i: int|
            0 <= i < layers.len() ==> (#[trigger] layers[i]).progress == progress_of(
                config,
                i as usize,
            ),
    ensures
        ({
            let n = layers.len();
            let refused = n > 0 && deepseek3::alloc_refusal(config, (n - 1) as usize) is Some;
            let made = if refused {
                (n - 1) as nat
            } else {
                n
            };
            reported(layers) == Seq::new(made, |i: int| (i + 1) as usize)
        }),
    decreases layers.len(),
{
    let n = layers.len();
    if n == 0 {
        assert(reported(layers) =~= Seq::new(0, |i: int| (i + 1) as usize));
    } else {
        let before = layers.drop_last();
        assert forall|i: int| 0 <= i < before.len() implies (#[trigger] before[i]).progress
            == progress_of(config, i as usize) by {
            assert(before[i] == layers[i]);
        }
        law_reports(config, before);
        if n > 1 {
            assert(deepseek3::alloc_refusal(config, (n - 2) as usize) is None);
        }
        assert(layers.last().progress == progress_of(config, (n - 1) as usize));
        assert(reported(before) =~= Seq::new((n - 1) as nat, |i: int| (i + 1) as usize));
        assert(reported(before).push(n as usize) =~= Seq::new(n, |i: int| (i + 1) as usize));
    }
}

/// The layers before `n` are not refused.
pub open spec fn none_refused(config: Config, n: int) -> bool {
    forall|i: usize| 0 <= i < n ==> #[trigger] deepseek3::alloc_refusal(config, i) is None
}

impl DeepSeekForCausalLM {
    /// Lays out the empty buffers of a model, around its table of token vectors and the number of
    /// tokens that came with it, and the model. If a layer is refused, the steps end with those
    /// that this layer took, there is no norm to make, the layer is not reported, and the reason
    /// comes in place of the model.
    pub fn new_alloc(
        config: &Config,
        dtype: DType,
        is_rope_i: bool,
        embed_tokens: Tensor,
        vocab_size: usize,
    ) -> (r: (ModelAlloc, Result<DeepSeekForCausalLM, ShardError>))
        requires
            forall|i: usize|
                0 <= i < config.num_hidden_layers ==> #[trigger] deepseek3::alloc_wf(*config, i),
        ensures
            ({
                let alloc = r.0;
                let made = alloc.layers@.len();
                &&& alloc.rotary == rotary_of(
                    *config,
                    wanted_dtype(*config, false, dtype),
                    is_rope_i,
                )
                &&& alloc.block_size@ == config.block_size_spec()
                &&& alloc.norm is Some <==> r.1 is Ok
                &&& alloc.norm matches Some(norm) ==> is_norm_build(norm, *config, false)
                &&& forall|i: int|
                    #![trigger alloc.layers@[i]]
                    0 <= i < made ==> {
                        &&& alloc.layers@[i].progress == progress_of(*config, i as usize)
                        &&& deepseek3::alloc_views(alloc.layers@[i].steps@)
                            == deepseek3::alloc_steps(*config, i as usize, dtype)
                    }
                &&& match r.1 {
                    Ok(model) => {
                        &&& made == config.num_hidden_layers
                        &&& none_refused(*config, made as int)
                        &&& model.embed_tokens == embed_tokens
                        &&& model.hidden_size == config.hidden_size
                        &&& model.dtype == dtype
                        &&& model.vocab_size == vocab_size
                        &&& !model.is_qvar_builder
                        &&& model.quantized == config.quant is Some
                        &&& model.sliding_window == config.sliding_window
                        &&& model.layers@ == Seq::new(
                            made,
                            |i: int| deepseek3::alloc_layer(*config, i as usize),
                        )
                    },
                    Err(e) => {
                        &&& 0 < made <= config.num_hidden_layers
                        &&& none_refused(*config, made - 1)
                        &&& deepseek3::alloc_refusal(*config, (made - 1) as usize) == Some(e)
                    },
                }
            }),
    {
        let emb_dtype = if config.higher_precision_required {
            DType::F32
        } else {
            dtype
        };
        let rotary = build_rotary_emb(config, emb_dtype, is_rope_i);
        let block_size = config.block_size();
        let n: usize = config.num_hidden_layers;
        let mut layers: Vec<DeepSeekDecoderLayer> = Vec::new();
        let mut allocs: Vec<LayerAlloc> = Vec::new();
        let mut i: usize = 0;
        while i < n
            invariant
                i <= n,
                n == config.num_hidden_layers,
                forall|k: usize|
                    0 <= k < config.num_hidden_layers ==> #[trigger] deepseek3::alloc_wf(
                        *config,
                        k,
                    ),
                rotary == rotary_of(*config, wanted_dtype(*config, false, dtype), is_rope_i),
                block_size@ == config.block_size_spec(),
                none_refused(*config, i as int),
                layers@ == Seq::new(
                    i as nat,
                    |k: int| deepseek3::alloc_layer(*config, k as usize),
                ),
                allocs@.len() == i,
                forall|k: int|
                    #![trigger allocs@[k]]
                    0 <= k < i ==> {
                        &&& allocs@[k].progress == progress_of(*config, k as usize)
                        &&& deepseek3::alloc_views(allocs@[k].steps@) == deepseek3::alloc_steps(
                            *config,
                            k as usize,
                            dtype,
                        )
                    },
            decreases n - i,
        {
            let (steps, made) = DeepSeekDecoderLayer::new_alloc(config, dtype, i);
            match made {
                Ok(layer) => {
                    allocs.push(LayerAlloc { steps, progress: Some(i + 1) });
                    layers.push(layer);
                },
                Err(e) => {
                    allocs.push(LayerAlloc { steps, progress: None });
                    return (ModelAlloc { rotary, block_size, layers: allocs, norm: None }, Err(e));
                },
            }
            i = i + 1;
            assert(layers@ =~= Seq::new(
                i as nat,
                |k: int| deepseek3::alloc_layer(*config, k as usize),
            ));
        }
        let model = DeepSeekForCausalLM {
            embed_tokens,
            hidden_size: config.hidden_size,
            layers,
            dtype,
            vocab_size,
            is_qvar_builder: false,
            quantized: config.quant.is_some(),
            sliding_window: config.sliding_window,
        };
        let norm = NormBuild {
            at: "model.norm".to_owned(),
            hidden_size: config.hidden_size,
            dtype: DType::F32,
        };
        (ModelAlloc { rotary, block_size, layers: allocs, norm: Some(norm) }, Ok(model))
    }

    /// The parts that are completed once the weights are there, layer by layer, until one fails
    /// (see [`crate::utils::run`]).
    pub fn post_load(&self) -> (r: Vec<LayerPart>)
        ensures
            r@ == Seq::new(
                self.layers@.len(),
                |i: int| LayerPart::Attention { layer_idx: i as usize },
            ),
    {
        let mut parts: Vec<LayerPart> = Vec::new();
        let mut i: usize = 0;
        while i < self.layers.len()
            invariant
                i <= self.layers@.len(),
                parts@ == Seq::new(
                    i as nat,
                    |k: int| LayerPart::Attention { layer_idx: k as usize },
                ),
            decreases self.layers@.len() - i,
        {
            parts.push(self.layers[i].post_load(i));
            i = i + 1;
            assert(parts@ =~= Seq::new(
                i as nat,
                |k: int| LayerPart::Attention { layer_idx: k as usize },
            ));
        }
        parts
    }

    /// The number of tokens.
    pub fn get_vocab_size(&self) -> (r: usize)
        ensures
            r == self.vocab_size,
    {
        self.vocab_size
    }

    /// The type that the model computes with.
    pub fn dtype(&self) -> (r: DType)
        ensures
            r == self.dtype,
    {
        self.dtype
    }
}

/// The least multiple of `step` that is no less than `n`.
pub open spec fn rounded_up(n: int, step: int) -> int {
    ((n + step - 1) / step) * step
}

/// The number of tokens that the output layer is laid out for: filled up so that it divides over
/// the ranks, in whole groups of 64.
pub open spec fn padded_vocab(vocab_size: int, nproc: int) -> int {
    rounded_up(rounded_up(rounded_up(vocab_size, 64), nproc), 64)
}

/// The tokens of the output layer on each rank.
pub open spec fn local_vocab(vocab_size: int, nproc: int) -> int {
    padded_vocab(vocab_size, nproc) / nproc
}

/// The sizes on the way to the tokens of a rank fit.
pub open spec fn vocab_fits(vocab_size: int, nproc: int) -> bool {
    &&& nproc > 0
    &&& vocab_size + 64 <= usize::MAX
    &&& rounded_up(vocab_size, 64) + nproc <= usize::MAX
    &&& rounded_up(rounded_up(vocab_size, 64), nproc) + 64 <= usize::MAX
}

proof fn lemma_rounded_up(n: int, step: int)
    requires
        0 <= n,
        0 < step,
    ensures
        n <= rounded_up(n, step) < n + step,
        rounded_up(n, step) % step == 0,
{
    let q = (n + step - 1) / step;
    lemma_fundamental_div_mod(n + step - 1, step);
    vstd::arithmetic::mul::lemma_mul_is_commutative(q, step);
    vstd::arithmetic::div_mod::lemma_mod_multiples_basic(q, step);
}

/// The output layer is laid out for whole groups of 64 tokens, the ranks together have no more
/// than these, and every token of the vocabulary is on some rank.
pub proof fn law_vocab(vocab_size: nat, nproc: nat)
    requires
        nproc > 0,
    ensures
        padded_vocab(vocab_size as int, nproc as int) % 64 == 0,
        vocab_size <= local_vocab(vocab_size as int, nproc as int) * nproc <= padded_vocab(
            vocab_size as int,
            nproc as int,
        ),
{
    let v = vocab_size as int;
    let n = nproc as int;
    let a = rounded_up(v, 64);
    let b = rounded_up(a, n);
    let c = padded_vocab(v, n);
    lemma_rounded_up(v, 64);
    lemma_rounded_up(a, n);
    lemma_rounded_up(b, 64);
    lemma_fundamental_div_mod(b, n);
    lemma_fundamental_div_mod(c, n);
    vstd::arithmetic::div_mod::lemma_div_is_ordered(b, c, n);
    assert(n * (b / n) <= n * (c / n)) by (nonlinear_arith)
        requires
            n > 0,
            b / n <= c / n,
    ;
    vstd::arithmetic::mul::lemma_mul_is_commutative(n, c / n);
}

/// The output layer that the ranks hold together is the one in the file, if it is cast and the
/// vocabulary divides evenly: what they fill their buffers with, one rank after the other, starts
/// with a cast of all of it.
pub proof fn law_lm_head_is_gathered(
    parts: Seq<Tensor>,
    bytes: Seq<u8>,
    from: DType,
    to: DType,
    vocab_size: usize,
    hidden_size: usize,
    on_cpu: bool,
)
    requires
        parts.len() > 0,
        vocab_size as nat % parts.len() == 0,
        local_vocab(vocab_size as int, parts.len() as int) <= usize::MAX,
        forall|i: int|
            0 <= i < parts.len() ==> convert::is_conversion(
                Some(#[trigger] parts[i]),
                bytes,
                from,
                to,
                seq![local_vocab(vocab_size as int, parts.len() as int) as usize, hidden_size],
                TensorShape::D2(vocab_size, hidden_size),
                Dist::VocabParallel,
                i as nat,
                parts.len(),
                on_cpu,
            ),
    ensures
        ({
            let all = Seq::new(parts.len(), |i: int| tensor::made_bytes(parts[i])).flatten();
            let len = vocab_size * hidden_size * tensor::elem_size(to);
            &&& len <= all.len()
            &&& tensor::is_cast(
                from,
                to,
                vocab_size as nat * hidden_size as nat,
                bytes,
                all.take(len),
            )
        }),
{
    let nproc = parts.len();
    law_vocab(vocab_size as nat, nproc);
    let local = local_vocab(vocab_size as int, nproc as int);
    assert(local >= 0) by (nonlinear_arith)
        requires
            local * nproc >= vocab_size,
            nproc > 0,
            vocab_size >= 0,
    ;
    shards::law_vocab_fills_gather(
        parts,
        bytes,
        from,
        to,
        local as usize,
        vocab_size,
        hidden_size,
        on_cpu,
    );
}

/// The same holds where the output layer is copied as it is.
pub proof fn law_lm_head_copies_are_gathered(
    ts: Seq<Target>,
    vocab_size: usize,
    hidden_size: usize,
    elem: nat,
    src: Seq<u8>,
)
    requires
        ts.len() > 0,
        src.len() == vocab_size * hidden_size * elem,
        local_vocab(vocab_size as int, ts.len() as int) <= usize::MAX,
        forall|i: int|
            #![trigger ts[i]]
            0 <= i < ts.len() ==> {
                &&& transfer::copy_defined(
                    ts[i],
                    TensorShape::D2(vocab_size, hidden_size),
                    Dist::VocabParallel,
                    i as nat,
                    ts.len(),
                )
                &&& ts[i].elem == elem
                &&& ts[i].dims == seq![
                    local_vocab(vocab_size as int, ts.len() as int) as usize,
                    hidden_size,
                ]
            },
    ensures
        ({
            let local = local_vocab(vocab_size as int, ts.len() as int);
            Seq::new(
                ts.len(),
                |i: int|
                    shards::filled(
                        src,
                        shards::rows_of(
                            ts[i],
                            TensorShape::D2(vocab_size, hidden_size),
                            Dist::VocabParallel,
                            i as nat,
                            ts.len(),
                        ),
                        (local * (hidden_size * elem)) as nat,
                    ),
            ).flatten().take(src.len() as int) == src
        }),
{
    law_vocab(vocab_size as nat, ts.len());
    let local = local_vocab(vocab_size as int, ts.len() as int);
    assert(local >= 0) by (nonlinear_arith)
        requires
            local * ts.len() >= vocab_size,
            ts.len() > 0,
            vocab_size >= 0,
    ;
    shards::law_vocab_copies_gather(ts, local as usize, vocab_size, hidden_size, elem, src);
}

fn round_up(n: usize, step: usize) -> (r: usize)
    requires
        0 < step,
        n + step <= usize::MAX,
    ensures
        r == rounded_up(n as int, step as int),
{
    proof {
        lemma_rounded_up(n as int, step as int);
    }
    ((n + step - 1) / step) * step
}

/// Tests whether the sizes on the way to the tokens of a rank fit.
pub fn vocab_is_fit(vocab_size: usize, nproc: usize) -> (r: bool)
    ensures
        r == vocab_fits(vocab_size as int, nproc as int),
{
    if nproc == 0 || vocab_size > usize::MAX - 64 {
        return false;
    }
    let padded: usize = round_up(vocab_size, 64);
    if nproc > usize::MAX - padded {
        return false;
    }
    round_up(padded, nproc) <= usize::MAX - 64
}

/// Computes the tokens of the output layer on each rank.
pub fn local_vocab_of(vocab_size: usize, nproc: usize) -> (r: usize)
    requires
        vocab_fits(vocab_size as int, nproc as int),
    ensures
        r == local_vocab(vocab_size as int, nproc as int),
{
    let padded: usize = round_up(vocab_size, 64);
    let per_rank: usize = round_up(padded, nproc);
    let padded_vocab: usize = round_up(per_rank, 64);
    padded_vocab / nproc
}

/// The type of the weights of the output layer: that of the file, if it is known, and else that
/// of the model.
pub open spec fn lm_head_dtype(meta: TensorMeta, dtype: DType) -> DType {
    match tensor_index::dtype_named(meta.src_dtype@) {
        Some(d) => d,
        None => dtype,
    }
}

/// The weights of the output layer can be laid out, if the index holds them: the sizes fit and
/// the weights can be counted.
pub open spec fn lm_head_defined(
    tensors: Map<Seq<char>, TensorMeta>,
    vocab_size: usize,
    hidden_size: usize,
    nproc: usize,
    dtype: DType,
) -> bool {
    let name = "lm_head.weight"@;
    &&& vocab_fits(vocab_size as int, nproc as int)
    &&& tensors.contains_key(name) ==> tensor::countable(
        seq![local_vocab(vocab_size as int, nproc as int) as usize, hidden_size],
        tensor::elem_size(lm_head_dtype(tensors[name], dtype)),
    )
}

/// Makes the empty weights of the output layer, split over the vocabulary, and puts them down in
/// the index.
pub fn alloc_lm_head(
    ti: &mut TensorIndex,
    vocab_size: usize,
    hidden_size: usize,
    nproc: usize,
    dtype: DType,
    device: &Device,
) -> (r: Result<Tensor, ShardError>)
    requires
        old(ti).wf(),
        lm_head_defined(old(ti).tensors@, vocab_size, hidden_size, nproc, dtype),
    ensures
        final(ti).wf(),
        final(ti).same_files(old(ti)),
        ({
            let before = old(ti).tensors@;
            let name = "lm_head.weight"@;
            let wanted = lm_head_dtype(before[name], dtype);
            &&& (r is Err && r->Err_0 is LmHeadNotFound) <==> !before.contains_key(name)
            &&& r is Err ==> (r->Err_0 is LmHeadNotFound || r->Err_0 is Candle)
                && final(ti).tensors@ == before
            &&& before.contains_key(name) && *device is Cpu ==> (r is Ok <==> tensor::computes(
                wanted,
            ))
            &&& r matches Ok(t) ==> {
                &&& tensor_index::is_zeros(
                    t,
                    seq![local_vocab(vocab_size as int, nproc as int) as usize, hidden_size],
                    wanted,
                    *device,
                )
                &&& final(ti).tensors@ == tensor_index::registered(
                    before,
                    name,
                    t,
                    Dist::VocabParallel,
                )
            }
        }),
{
    let local_vocab: usize = local_vocab_of(vocab_size, nproc);
    let lm_head_name = "lm_head.weight";
    let lm_dtype = match ti.meta(lm_head_name) {
        Some(meta) => match TensorIndex::parse_dtype(meta.src_dtype.as_str()) {
            Some(d) => d,
            None => dtype,
        },
        None => {
            return Err(ShardError::LmHeadNotFound);
        },
    };
    let shape: [usize; 2] = [local_vocab, hidden_size];
    assert(shape@ =~= seq![local_vocab, hidden_size]);
    match tensor::zeros(shape.as_slice(), lm_dtype, device) {
        Ok(t) => {
            let t = t.into_tensor();
            ti.register(lm_head_name, t.clone(), Dist::VocabParallel);
            Ok(t)
        },
        Err(e) => Err(ShardError::Candle(e)),
    }
}

/// Tests whether the weights of the output layer can be laid out.
pub fn lm_head_is_defined(
    ti: &TensorIndex,
    vocab_size: usize,
    hidden_size: usize,
    nproc: usize,
    dtype: DType,
) -> (r: bool)
    requires
        ti.wf(),
    ensures
        r == lm_head_defined(ti.tensors@, vocab_size, hidden_size, nproc, dtype),
{
    if !vocab_is_fit(vocab_size, nproc) {
        return false;
    }
    match ti.meta("lm_head.weight") {
        Some(meta) => {
            let lm_dtype = match TensorIndex::parse_dtype(meta.src_dtype.as_str()) {
                Some(d) => d,
                None => dtype,
            };
            let shape: [usize; 2] = [local_vocab_of(vocab_size, nproc), hidden_size];
            assert(shape@ =~= seq![shape@[0], hidden_size]);
            tensor::is_countable(shape.as_slice(), lm_dtype.size_in_bytes())
        },
        None => true,
    }
}

} // verus!
