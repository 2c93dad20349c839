use candle_core::{DType, Device, Tensor};
use tensor_shards::models::causal_lm::{
    alloc_lm_head, build_rotary_emb, embedding_build, lm_head_is_defined, local_vocab_of,
    vocab_is_fit, DeepSeekForCausalLM,
};
use tensor_shards::models::config::{Config, MoeConfig, QuantConfig};
use tensor_shards::models::deepseek3::{
    all_buffers_are_wf, AllocStep, BuildStep, DeepSeekDecoderLayer, LayerPart, MoeOrMlp, SharedKeys,
};
use tensor_shards::utils::error::ShardError;
use tensor_shards::utils::index_files::{FileHeader, HeaderEntry};
use tensor_shards::utils::tensor_index::{Dist, TensorIndex, TensorShape};

fn config() -> Config {
    Config {
        hidden_size: 8,
        intermediate_size: 32,
        vocab_size: 100,
        num_hidden_layers: 3,
        quantization_config: None,
        quant: None,
        moe_cfg: Some(MoeConfig {
            first_k_dense_replace: Some(1),
            num_experts: Some(4),
            shared_expert_intermediate_size: Some(5),
            n_shared_experts: Some(2),
        }),
        tie_word_embeddings: None,
        higher_precision_required: false,
        qk_rope_head_dim: 64,
        sliding_window: Some(7),
    }
}

fn quantized(method: &str) -> Option<QuantConfig> {
    Some(QuantConfig {
        quant_method: method.to_string(),
        weight_block_size: None,
    })
}

fn keys(weight: bool, weight_packed: bool) -> SharedKeys {
    SharedKeys {
        weight,
        weight_packed,
    }
}

fn places(steps: &[BuildStep]) -> Vec<Option<&str>> {
    steps.iter().map(|s| s.at.as_deref()).collect()
}

fn prefixes(steps: &[AllocStep]) -> Vec<Option<&str>> {
    steps.iter().map(|s| s.prefix.as_deref()).collect()
}

fn parts(steps: &[BuildStep]) -> Vec<LayerPart> {
    steps.iter().map(|s| s.part).collect()
}

#[test]
fn a_dense_layer_has_a_perceptron() {
    let (layer, steps) = DeepSeekDecoderLayer::new(&config(), false, keys(true, false), DType::BF16, 0);
    assert_eq!(layer, DeepSeekDecoderLayer { mlp: MoeOrMlp::Mlp, shared_expert: false });
    assert_eq!(
        parts(&steps),
        vec![
            LayerPart::Attention { layer_idx: 0 },
            LayerPart::Mlp { hidden_size: 8, intermediate_size: 32 },
            LayerPart::InputNorm { hidden_size: 8 },
            LayerPart::PostAttentionNorm { hidden_size: 8 },
        ]
    );
    assert_eq!(
        places(&steps),
        vec![
            Some("self_attn"),
            Some("mlp"),
            Some("input_layernorm"),
            Some("post_attention_layernorm")
        ]
    );
    let dtypes: Vec<DType> = steps.iter().map(|s| s.dtype).collect();
    assert_eq!(dtypes, vec![DType::BF16, DType::BF16, DType::F32, DType::F32]);
    assert!(steps.iter().all(|s| s.suffix.is_empty()));
}

#[test]
fn a_layer_with_experts_may_have_a_shared_one() {
    let (layer, steps) = DeepSeekDecoderLayer::new(&config(), false, keys(false, true), DType::BF16, 1);
    assert_eq!(layer, DeepSeekDecoderLayer { mlp: MoeOrMlp::FusedMoe, shared_expert: true });
    assert_eq!(
        parts(&steps)[1..3],
        [
            LayerPart::Experts { kind: MoeOrMlp::FusedMoe },
            LayerPart::SharedExpert { hidden_size: 8, intermediate_size: 10 },
        ]
    );
    assert_eq!(places(&steps)[2], Some("mlp.shared_experts"));
    let (_, steps) = DeepSeekDecoderLayer::new(&config(), false, keys(false, false), DType::BF16, 1);
    assert_eq!(places(&steps)[2], Some("mlp.shared_expert"));
    let mut c = config();
    c.moe_cfg.as_mut().unwrap().n_shared_experts = None;
    let (_, steps) = DeepSeekDecoderLayer::new(&c, false, keys(true, true), DType::BF16, 1);
    assert_eq!(
        steps[2].part,
        LayerPart::SharedExpert { hidden_size: 8, intermediate_size: 5 }
    );
    c.moe_cfg.as_mut().unwrap().shared_expert_intermediate_size = Some(0);
    let (layer, steps) = DeepSeekDecoderLayer::new(&c, false, keys(true, true), DType::BF16, 1);
    assert!(!layer.shared_expert);
    assert_eq!(steps.len(), 4);
}

#[test]
fn quantization_decides_which_experts_there_are() {
    let kind = |c: &Config, qvar: bool| {
        DeepSeekDecoderLayer::new(c, qvar, keys(true, false), DType::BF16, 2).0.mlp
    };
    let mut c = config();
    assert_eq!(kind(&c, false), MoeOrMlp::FusedMoe);
    assert_eq!(kind(&c, true), MoeOrMlp::FusedMoeGGUF);
    c.quant = Some("q4k".to_string());
    assert_eq!(kind(&c, false), MoeOrMlp::FusedMoeISQ);
    c.quantization_config = quantized("gptq");
    assert_eq!(kind(&c, false), MoeOrMlp::FusedMoe);
    c.quantization_config = quantized("fp8");
    assert_eq!(kind(&c, false), MoeOrMlp::FusedMoeFp8);
    assert_eq!(kind(&c, true), MoeOrMlp::FusedMoeGGUF);
    c.moe_cfg.as_mut().unwrap().num_experts = None;
    assert_eq!(kind(&c, true), MoeOrMlp::Mlp);
}

#[test]
fn packed_weights_are_all_in_one_place() {
    let (_, steps) = DeepSeekDecoderLayer::new(&config(), true, keys(true, false), DType::BF16, 1);
    assert_eq!(
        places(&steps),
        vec![None, None, None, Some("attn_norm"), Some("ffn_norm")]
    );
    let suffixes: Vec<&str> = steps.iter().map(|s| s.suffix.as_str()).collect();
    assert_eq!(suffixes, vec!["", "", "_shexp", "", ""]);
}

#[test]
fn buffers_of_a_dense_layer() {
    let (steps, layer) = DeepSeekDecoderLayer::new_alloc(&config(), DType::BF16, 0);
    assert_eq!(layer.unwrap(), DeepSeekDecoderLayer { mlp: MoeOrMlp::Mlp, shared_expert: false });
    assert_eq!(
        prefixes(&steps),
        vec![
            None,
            Some("model.layers.0.mlp"),
            Some("model.layers.0.input_layernorm"),
            Some("model.layers.0.post_attention_layernorm")
        ]
    );
    assert_eq!(steps[1].dtype, DType::BF16);
    assert_eq!(steps[2].dtype, DType::F32);
}

#[test]
fn buffers_of_a_layer_with_experts() {
    let mut c = config();
    c.quantization_config = quantized("fp8");
    let (steps, layer) = DeepSeekDecoderLayer::new_alloc(&c, DType::BF16, 12);
    assert_eq!(
        layer.unwrap(),
        DeepSeekDecoderLayer { mlp: MoeOrMlp::FusedMoeFp8, shared_expert: true }
    );
    assert_eq!(
        prefixes(&steps),
        vec![
            None,
            Some("model.layers.12.mlp.experts"),
            Some("model.layers.12.mlp.shared_experts"),
            Some("model.layers.12.input_layernorm"),
            Some("model.layers.12.post_attention_layernorm")
        ]
    );
    assert_eq!(steps[1].gate_prefix.as_deref(), Some("model.layers.12.mlp.gate"));
    assert_eq!(
        steps[2].part,
        LayerPart::SharedExpert { hidden_size: 8, intermediate_size: 10 }
    );
}

#[test]
fn only_blocks_of_fp8_have_buffers_for_experts() {
    let (steps, layer) = DeepSeekDecoderLayer::new_alloc(&config(), DType::BF16, 1);
    assert_eq!(steps.len(), 1);
    assert_eq!(
        layer.unwrap_err().message().unwrap(),
        "MoE without quant config not supported in alloc path"
    );
    let mut c = config();
    c.quantization_config = quantized("gptq");
    let (steps, layer) = DeepSeekDecoderLayer::new_alloc(&c, DType::BF16, 1);
    assert_eq!(steps[0].part, LayerPart::Attention { layer_idx: 1 });
    assert_eq!(
        layer.unwrap_err().message().unwrap(),
        "MoE non-FP8 quant not supported in alloc path yet"
    );
}

#[test]
fn settings_are_tested() {
    assert!(config().is_wf());
    let mut c = config();
    c.moe_cfg.as_mut().unwrap().shared_expert_intermediate_size = Some(usize::MAX);
    assert!(!c.is_wf());
    c.moe_cfg.as_mut().unwrap().n_shared_experts = None;
    assert!(c.is_wf());
    c.moe_cfg = None;
    assert!(!c.is_wf());
    assert!(!all_buffers_are_wf(&c));
    c.num_hidden_layers = 0;
    assert!(c.is_wf());
    assert!(all_buffers_are_wf(&c));
    let mut dense = config();
    let moe = dense.moe_cfg.as_mut().unwrap();
    moe.shared_expert_intermediate_size = Some(usize::MAX);
    moe.first_k_dense_replace = Some(3);
    assert!(dense.is_wf());
    assert!(dense.layer_is_wf(2));
    assert!(!dense.layer_is_wf(3));
    let (layer, _) = DeepSeekDecoderLayer::new(&dense, false, keys(true, false), DType::F32, 2);
    assert_eq!(layer.mlp, MoeOrMlp::Mlp);
    // A layer that is refused never has its sizes computed.
    dense.moe_cfg.as_mut().unwrap().first_k_dense_replace = None;
    assert!(!dense.is_wf());
    assert!(all_buffers_are_wf(&dense));
    assert_eq!(config().block_size(), vec![128, 128]);
    let mut c = config();
    c.quantization_config = quantized("fp8");
    assert_eq!(c.block_size(), vec![128, 128]);
    c.quantization_config.as_mut().unwrap().weight_block_size = Some(vec![64, 32]);
    assert_eq!(c.block_size(), vec![64, 32]);
}

fn table() -> Tensor {
    Tensor::zeros((100, 8), DType::BF16, &Device::Cpu).unwrap()
}

#[test]
fn a_model_is_laid_out_layer_by_layer() {
    let (model, build) = DeepSeekForCausalLM::new(
        &config(),
        false,
        &vec![keys(true, false); 3],
        DType::BF16,
        true,
        table(),
        101,
    );
    let embedding = embedding_build(&config(), false, DType::BF16);
    assert_eq!(embedding.at, "model.embed_tokens");
    assert_eq!((embedding.vocab_size, embedding.hidden_size), (100, 8));
    assert_eq!(embedding.dtype, DType::BF16);
    assert_eq!(model.get_vocab_size(), 101);
    assert_eq!(model.dtype(), DType::BF16);
    assert_eq!(model.sliding_window, Some(7));
    let kinds: Vec<MoeOrMlp> = model.layers.iter().map(|l| l.mlp).collect();
    assert_eq!(kinds, vec![MoeOrMlp::Mlp, MoeOrMlp::FusedMoe, MoeOrMlp::FusedMoe]);
    let at: Vec<&str> = build.layers.iter().map(|l| l.at.as_str()).collect();
    assert_eq!(at, vec!["model.layers.0", "model.layers.1", "model.layers.2"]);
    let progress: Vec<usize> = build.layers.iter().map(|l| l.progress).collect();
    assert_eq!(progress, vec![1, 2, 3]);
    assert_eq!(build.layers[1].steps.len(), 5);
    assert_eq!(build.norm.at, "model.norm");
    assert_eq!((build.norm.hidden_size, build.norm.dtype), (8, DType::F32));
    assert_eq!(build.lm_head.at, "lm_head");
    assert_eq!((build.lm_head.hidden_size, build.lm_head.vocab_size), (8, 101));
    assert_eq!(build.lm_head.dtype, DType::BF16);
    assert!(!build.lm_head.quantized);
    assert_eq!(build.rotary.dtype, DType::BF16);
    assert_eq!(build.rotary.head_dim, 64);
    assert!(build.rotary.is_rope_i);
    assert_eq!(
        model.post_load(),
        vec![
            LayerPart::Attention { layer_idx: 0 },
            LayerPart::Attention { layer_idx: 1 },
            LayerPart::Attention { layer_idx: 2 },
        ]
    );
}

#[test]
fn packed_models_have_other_names() {
    let mut c = config();
    let make = |c: &Config, qvar: bool| {
        let k = vec![keys(true, false); 3];
        DeepSeekForCausalLM::new(c, qvar, &k, DType::BF16, false, table(), 100).1
    };
    let build = make(&c, true);
    assert_eq!(embedding_build(&c, true, DType::F32).at, "token_embd");
    assert_eq!(build.layers[2].at, "blk.2");
    assert_eq!(build.norm.at, "output_norm");
    assert_eq!(build.lm_head.at, "output");
    assert_eq!(build.rotary.dtype, DType::F32);
    c.tie_word_embeddings = Some(true);
    assert_eq!(make(&c, true).lm_head.at, "token_embd");
    assert_eq!(make(&c, false).lm_head.at, "model.embed_tokens");
    c.tie_word_embeddings = Some(false);
    assert_eq!(make(&c, false).lm_head.at, "lm_head");
    c.higher_precision_required = true;
    assert_eq!(make(&c, false).rotary.dtype, DType::F32);
    assert_eq!(build_rotary_emb(&c, DType::BF16, false).dtype, DType::F32);
    assert_eq!(build_rotary_emb(&config(), DType::BF16, false).dtype, DType::BF16);
}

#[test]
fn buffers_of_a_model() {
    let mut c = config();
    c.quantization_config = quantized("fp8");
    let (alloc, model) = DeepSeekForCausalLM::new_alloc(&c, DType::BF16, false, table(), 100);
    let model = match model {
        Ok(m) => m,
        Err(_) => unreachable!(),
    };
    assert_eq!(alloc.layers.len(), 3);
    let progress: Vec<Option<usize>> = alloc.layers.iter().map(|l| l.progress).collect();
    assert_eq!(progress, vec![Some(1), Some(2), Some(3)]);
    assert_eq!(model.sliding_window, Some(7));
    assert_eq!(alloc.block_size, vec![128, 128]);
    let norm = alloc.norm.unwrap();
    assert_eq!(norm.at, "model.norm");
    assert_eq!(norm.dtype, DType::F32);
    assert_eq!(alloc.rotary.dtype, DType::BF16);
    assert!(!model.is_qvar_builder);
    assert_eq!(model.layers[2].mlp, MoeOrMlp::FusedMoeFp8);
}

#[test]
fn the_first_refused_layer_ends_a_model() {
    let (alloc, model) = DeepSeekForCausalLM::new_alloc(&config(), DType::BF16, false, table(), 100);
    assert_eq!(alloc.layers.len(), 2);
    assert_eq!(alloc.layers[0].steps.len(), 4);
    assert_eq!(alloc.layers[1].steps.len(), 1);
    let progress: Vec<Option<usize>> = alloc.layers.iter().map(|l| l.progress).collect();
    assert_eq!(progress, vec![Some(1), None]);
    assert!(alloc.norm.is_none());
    match model {
        Err(ShardError::MoeNotQuantized) => {}
        _ => unreachable!(),
    }
}

#[test]
fn the_vocabulary_is_filled_up() {
    assert_eq!(local_vocab_of(100, 1), 128);
    assert_eq!(local_vocab_of(100, 2), 64);
    assert_eq!(local_vocab_of(100, 3), 64);
    assert_eq!(local_vocab_of(100, 7), 27);
    assert_eq!(local_vocab_of(129280, 8), 16160);
    assert_eq!(local_vocab_of(0, 4), 0);
    assert!(!vocab_is_fit(100, 0));
    assert!(!vocab_is_fit(usize::MAX, 2));
    assert!(!vocab_is_fit(usize::MAX - 100, 200));
}

fn index(dtype: &str) -> TensorIndex {
    let headers = vec![FileHeader {
        header_size: 0,
        entries: vec![HeaderEntry {
            name: "lm_head.weight".to_string(),
            dtype: dtype.to_string(),
            shape: TensorShape::D2(100, 8),
            data_offsets: (0, 1600),
        }],
    }];
    TensorIndex::new("", &vec![], &headers, &vec![])
}

#[test]
fn the_output_layer_is_split_over_the_vocabulary() {
    let mut ti = index("BF16");
    assert!(lm_head_is_defined(&ti, 100, 8, 2, DType::F32));
    let t = alloc_lm_head(&mut ti, 100, 8, 2, DType::F32, &Device::Cpu).unwrap();
    assert_eq!(t.dims(), &[64, 8]);
    assert_eq!(t.dtype(), DType::BF16);
    let meta = ti.meta("lm_head.weight").unwrap();
    assert_eq!(meta.dist, Dist::VocabParallel);
    assert_eq!(meta.buffer.as_ref().unwrap().dims(), &[64, 8]);
    let mut ti = index("I32");
    let t = alloc_lm_head(&mut ti, 100, 8, 2, DType::F32, &Device::Cpu).unwrap();
    assert_eq!(t.dtype(), DType::F32);
    let mut none = TensorIndex::new("", &vec![], &vec![], &vec![]);
    let e = alloc_lm_head(&mut none, 100, 8, 2, DType::F32, &Device::Cpu).unwrap_err();
    assert_eq!(e.message().unwrap(), "lm_head.weight not found in TensorIndex");
    assert!(!lm_head_is_defined(&ti, 100, usize::MAX, 2, DType::F32));
    assert!(!lm_head_is_defined(&ti, 100, 8, 0, DType::F32));
    let mut stored = index("F8_E8M0");
    match alloc_lm_head(&mut stored, 100, 8, 2, DType::F32, &Device::Cpu) {
        Err(ShardError::Candle(_)) => {}
        _ => unreachable!(),
    }
    assert!(stored.meta("lm_head.weight").unwrap().buffer.is_none());
}

#[test]
fn buffers_and_weights_make_the_same_layer() {
    let mut c = config();
    c.quantization_config = quantized("fp8");
    for i in 0..3 {
        let (layer, built) = DeepSeekDecoderLayer::new(&c, false, keys(true, false), DType::BF16, i);
        let (steps, alloc) = DeepSeekDecoderLayer::new_alloc(&c, DType::BF16, i);
        assert_eq!(alloc.unwrap(), layer);
        let allocated: Vec<LayerPart> = steps.iter().map(|s| s.part).collect();
        assert_eq!(allocated, parts(&built));
    }
}
