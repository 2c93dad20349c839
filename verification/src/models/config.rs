//! What decides how a model is put together.

use crate::utils::text::same_text;
use vstd::prelude::*;

verus! {

/// How the weights of a model are quantized.
#[derive(Debug)]
pub struct QuantConfig {
    pub quant_method: String,
    /// Rows and columns of the blocks that share a scale.
    pub weight_block_size: Option<Vec<usize>>,
}

/// The mixture of experts in a model.
#[derive(Debug, Clone, Copy, PartialEq, Eq, Structural)]
pub struct MoeConfig {
    /// The first layers have no experts.
    pub first_k_dense_replace: Option<usize>,
    pub num_experts: Option<usize>,
    pub shared_expert_intermediate_size: Option<usize>,
    pub n_shared_experts: Option<usize>,
}

/// The settings of a model.
#[derive(Debug)]
pub struct Config {
    pub hidden_size: usize,
    pub intermediate_size: usize,
    pub vocab_size: usize,
    pub num_hidden_layers: usize,
    pub quantization_config: Option<QuantConfig>,
    /// How weights are to be quantized while they are loaded.
    pub quant: Option<String>,
    pub moe_cfg: Option<MoeConfig>,
    pub tie_word_embeddings: Option<bool>,
    /// Whether positions have to be computed with full precision.
    pub higher_precision_required: bool,
    /// The dimensions of a head that positions are encoded in.
    pub qk_rope_head_dim: usize,
    /// How far back tokens are seen, if not all the way.
    pub sliding_window: Option<usize>,
}

impl MoeConfig {
    /// Whether a layer has experts.
    pub open spec fn has_experts(&self, layer_idx: usize) -> bool {
        &&& layer_idx >= (match self.first_k_dense_replace {
            Some(k) => k,
            None => 0,
        })
        &&& self.num_experts is Some
    }

    /// The size of the expert that every token goes through, if a layer with experts has one.
    pub open spec fn shared_size(&self) -> Option<int> {
        match self.shared_expert_intermediate_size {
            Some(size) => if size > 0 {
                Some(
                    size * (match self.n_shared_experts {
                        Some(n) => n,
                        None => 1,
                    }),
                )
            } else {
                None
            },
            None => None,
        }
    }

    /// Tests whether a layer has experts.
    pub fn layer_has_experts(&self, layer_idx: usize) -> (r: bool)
        ensures
            r == self.has_experts(layer_idx),
    {
        layer_idx >= self.first_k_dense_replace.unwrap_or(0) && self.num_experts.is_some()
    }

    /// Computes the size of the shared expert.
    pub fn shared_expert_size(&self) -> (r: Option<usize>)
        requires
            self.shared_size() matches Some(size) ==> size <= usize::MAX,
        ensures
            match r {
                Some(size) => self.shared_size() == Some(size as int),
                None => self.shared_size() is None,
            },
    {
        match self.shared_expert_intermediate_size {
            Some(size) => if size > 0 {
                Some(size * self.n_shared_experts.unwrap_or(1))
            } else {
                None
            },
            None => None,
        }
    }
}

impl Config {
    /// Whether the weights are in blocks of 8-bit floating point numbers.
    pub open spec fn is_fp8(&self) -> bool {
        self.quantization_config matches Some(q) && q.quant_method@ == "fp8"@
    }

    /// A layer can be laid out: the model is one with experts, and if the layer has them, the size
    /// of the shared one fits.
    pub open spec fn layer_wf(&self, layer_idx: usize) -> bool {
        self.moe_cfg matches Some(moe) && (moe.has_experts(layer_idx) ==> (moe.shared_size()
            matches Some(size) ==> size <= usize::MAX))
    }

    /// All layers can be laid out.
    pub open spec fn wf(&self) -> bool {
        forall|i: usize| 0 <= i < self.num_hidden_layers ==> #[trigger] self.layer_wf(i)
    }

    /// Tests whether the weights are in blocks of 8-bit floating point numbers.
    pub fn uses_fp8(&self) -> (r: bool)
        ensures
            r == self.is_fp8(),
    {
        match &self.quantization_config {
            Some(q) => same_text(q.quant_method.as_str(), "fp8"),
            None => false,
        }
    }

    /// Tests whether a layer can be laid out.
    pub fn layer_is_wf(&self, layer_idx: usize) -> (r: bool)
        ensures
            r == self.layer_wf(layer_idx),
    {
        match self.moe_cfg {
            Some(moe) => match moe.shared_expert_intermediate_size {
                Some(size) => size == 0 || !moe.layer_has_experts(layer_idx) || size.checked_mul(
                    moe.n_shared_experts.unwrap_or(1),
                ).is_some(),
                None => true,
            },
            None => false,
        }
    }

    /// Tests whether all layers can be laid out.
    pub fn is_wf(&self) -> (r: bool)
        ensures
            r == self.wf(),
    {
        if self.num_hidden_layers == 0 {
            return true;
        }
        let last: usize = self.num_hidden_layers - 1;
        let r = self.layer_is_wf(last);
        proof {
            if self.layer_wf(last) {
                assert forall|i: usize| 0 <= i < self.num_hidden_layers implies #[trigger]
                    self.layer_wf(i) by {
                    if self.moe_cfg->0.has_experts(i) {
                        assert(self.moe_cfg->0.has_experts(last));
                    }
                }
            }
        }
        r
    }

    /// The blocks that share a scale: 128 by 128 elements, unless the settings say otherwise.
    pub open spec fn block_size_spec(&self) -> Seq<usize> {
        match self.quantization_config {
            Some(q) => match q.weight_block_size {
                Some(b) => b@,
                None => seq![128usize, 128usize],
            },
            None => seq![128usize, 128usize],
        }
    }

    /// Computes the blocks that share a scale.
    pub fn block_size(&self) -> (r: Vec<usize>)
        ensures
            r@ == self.block_size_spec(),
    {
        match &self.quantization_config {
            Some(q) => match &q.weight_block_size {
                Some(b) => vstd::slice::slice_to_vec(b.as_slice()),
                None => vec![128, 128],
            },
            None => vec![128, 128],
        }
    }
}

} // verus!
