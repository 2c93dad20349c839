use candle_core::{DType, Device, Tensor};
use tensor_shards::models::causal_lm::DeepSeekForCausalLM;
use tensor_shards::models::deepseek3::{DeepSeekDecoderLayer, MoeOrMlp};
use tensor_shards::models::forward::{last_rows, InputMetadata, ModelCall};
use tensor_shards::models::layer_forward::{can_take, LayerCall};
use tensor_shards::utils::error::ShardError;

fn t(values: &[f32]) -> Tensor {
    Tensor::from_vec(values.to_vec(), (values.len(),), &Device::Cpu).unwrap()
}

fn v(x: &Tensor) -> Vec<f32> {
    x.to_vec1::<f32>().unwrap()
}

fn next(
    layer: &DeepSeekDecoderLayer,
    call: LayerCall,
    output: Tensor,
    is_prefill: bool,
) -> LayerCall {
    assert!(can_take(&call, &output));
    layer.forward_next(call, output, is_prefill).unwrap()
}

#[test]
fn experts_are_told_whether_tokens_are_new() {
    assert_eq!(MoeOrMlp::Mlp.forward(true), None);
    for m in [
        MoeOrMlp::FusedMoe,
        MoeOrMlp::FusedMoeFp8,
        MoeOrMlp::FusedMoeGGUF,
        MoeOrMlp::FusedMoeISQ,
    ] {
        assert_eq!(m.forward(true), Some(true));
        assert_eq!(m.forward(false), Some(false));
    }
}

#[test]
fn a_layer_adds_to_its_input() {
    let layer = DeepSeekDecoderLayer { mlp: MoeOrMlp::Mlp, shared_expert: false };
    let call = layer.forward(&t(&[1.0, 2.0]));
    match &call {
        LayerCall::InputNorm { xs } => assert_eq!(v(xs), vec![1.0, 2.0]),
        _ => unreachable!(),
    }
    let call = next(&layer, call, t(&[0.5, 0.5]), true);
    match &call {
        LayerCall::Attention { xs, residual } => {
            assert_eq!(v(xs), vec![0.5, 0.5]);
            assert_eq!(v(residual), vec![1.0, 2.0]);
        }
        _ => unreachable!(),
    }
    let call = next(&layer, call, t(&[10.0, 20.0]), true);
    match &call {
        LayerCall::PostAttentionNorm { xs } => assert_eq!(v(xs), vec![11.0, 22.0]),
        _ => unreachable!(),
    }
    let call = next(&layer, call, t(&[7.0, 7.0]), true);
    match &call {
        LayerCall::Mlp { xs, residual, shared, is_prefill } => {
            assert_eq!(v(xs), vec![7.0, 7.0]);
            assert_eq!(v(residual), vec![11.0, 22.0]);
            assert!(shared.is_none());
            assert_eq!(*is_prefill, None);
        }
        _ => unreachable!(),
    }
    match next(&layer, call, t(&[100.0, 200.0]), true) {
        LayerCall::Done { xs } => {
            assert_eq!(v(&xs), vec![111.0, 222.0]);
            assert!(!can_take(&LayerCall::Done { xs: xs.clone() }, &xs));
        }
        _ => unreachable!(),
    }
}

#[test]
fn a_shared_expert_is_added_to_the_others() {
    let layer = DeepSeekDecoderLayer { mlp: MoeOrMlp::FusedMoeFp8, shared_expert: true };
    let call = layer.forward(&t(&[1.0]));
    let call = next(&layer, call, t(&[0.0]), false);
    let call = next(&layer, call, t(&[2.0]), false);
    let call = next(&layer, call, t(&[9.0]), false);
    match &call {
        LayerCall::SharedExpert { xs, residual } => {
            assert_eq!(v(xs), vec![9.0]);
            assert_eq!(v(residual), vec![3.0]);
        }
        _ => unreachable!(),
    }
    let call = next(&layer, call, t(&[10.0]), false);
    match &call {
        LayerCall::Mlp { xs, shared, is_prefill, .. } => {
            assert_eq!(v(xs), vec![9.0]);
            assert_eq!(v(shared.as_ref().unwrap()), vec![10.0]);
            assert_eq!(*is_prefill, Some(false));
        }
        _ => unreachable!(),
    }
    match next(&layer, call, t(&[100.0]), false) {
        LayerCall::Done { xs } => assert_eq!(v(&xs), vec![113.0]),
        _ => unreachable!(),
    }
}

#[test]
fn outputs_of_another_size_are_refused() {
    let layer = DeepSeekDecoderLayer { mlp: MoeOrMlp::Mlp, shared_expert: false };
    let call = LayerCall::Attention { xs: t(&[1.0]), residual: t(&[1.0]) };
    match layer.forward_next(call, t(&[1.0, 2.0]), true) {
        Err(ShardError::Candle(_)) => {}
        _ => unreachable!(),
    }
}

fn model(is_qvar_builder: bool, quantized: bool, dtype: DType) -> DeepSeekForCausalLM {
    let rows: Vec<f32> = (0..8).map(|x| x as f32).collect();
    let table = Tensor::from_vec(rows, (4, 2), &Device::Cpu).unwrap();
    DeepSeekForCausalLM {
        embed_tokens: table.to_dtype(dtype).unwrap(),
        hidden_size: 2,
        layers: vec![DeepSeekDecoderLayer { mlp: MoeOrMlp::Mlp, shared_expert: false }; 2],
        dtype: DType::BF16,
        vocab_size: 4,
        is_qvar_builder,
        quantized,
        sliding_window: Some(5),
    }
}

fn ids(values: &[u32]) -> Tensor {
    Tensor::from_vec(values.to_vec(), (values.len(),), &Device::Cpu).unwrap()
}

#[test]
fn tokens_are_looked_up() {
    let m = model(false, false, DType::F32);
    assert!(m.can_embed(&ids(&[2, 0])));
    let x = m.embed_forward(&ids(&[2, 0])).unwrap();
    assert_eq!(x.to_vec2::<f32>().unwrap(), vec![vec![4.0, 5.0], vec![0.0, 1.0]]);
    match m.embed_forward(&ids(&[4])) {
        Err(ShardError::Candle(_)) => {}
        _ => unreachable!(),
    }
    let dtype = |q: bool, z: bool| model(q, z, DType::BF16).embed_forward(&ids(&[1])).unwrap().dtype();
    assert_eq!(dtype(false, false), DType::BF16);
    assert_eq!(dtype(true, false), DType::F32);
    assert_eq!(dtype(false, true), DType::F32);
}

#[test]
fn the_last_row_of_each_sequence_is_picked() {
    let rows: Vec<f32> = (0..6).map(|x| x as f32).collect();
    let xs = Tensor::from_vec(rows, (3, 2), &Device::Cpu).unwrap();
    let y = last_rows(xs.clone(), &[3, 1]).unwrap();
    assert_eq!(y.to_vec2::<f32>().unwrap(), vec![vec![4.0, 5.0], vec![0.0, 1.0]]);
    let y = last_rows(xs.clone(), &[]).unwrap();
    assert_eq!(y.dims(), &[3, 2]);
    assert!(last_rows(xs, &[4]).is_err());
}

fn meta(seqlens: Option<Vec<u32>>) -> InputMetadata {
    InputMetadata { is_prefill: true, seqlens }
}

#[test]
fn a_model_runs_its_layers_in_turn() {
    let m = model(false, false, DType::F32);
    let meta = meta(Some(vec![1, 2]));
    let input = ids(&[3, 1]);
    assert!(m.can_start(&input, Some(2), &meta, false));
    let mut call = m.forward(&input, Some(2), &meta, false).unwrap();
    for i in 0..2 {
        let xs = match &call {
            ModelCall::Layer { idx, xs } => {
                assert_eq!(*idx, i);
                xs.clone()
            }
            _ => unreachable!(),
        };
        let out = (xs + 1.0).unwrap();
        assert!(m.can_take(&call, &out, Some(2), &meta));
        call = m.forward_next(call, out, Some(2), &meta).unwrap();
    }
    let normed = match &call {
        ModelCall::Norm { xs } => {
            assert_eq!(xs.to_vec2::<f32>().unwrap(), vec![vec![8.0, 9.0], vec![4.0, 5.0]]);
            xs.clone()
        }
        _ => unreachable!(),
    };
    assert!(m.can_take(&call, &normed, Some(2), &meta));
    let call = m.forward_next(call, normed, Some(2), &meta).unwrap();
    let head = match &call {
        ModelCall::LmHead { xs } => {
            assert_eq!(xs.dtype(), DType::BF16);
            xs.clone()
        }
        _ => unreachable!(),
    };
    assert!(m.can_take(&call, &head, Some(2), &meta));
    match m.forward_next(call, head, Some(2), &meta).unwrap() {
        ModelCall::Done { xs } => {
            assert_eq!(xs.to_vec2::<f32>().unwrap(), vec![vec![8.0, 9.0], vec![4.0, 5.0]]);
            let done = ModelCall::Done { xs: xs.clone() };
            assert!(!m.can_take(&done, &xs, Some(2), &meta));
        }
        _ => unreachable!(),
    }
}

#[test]
fn layers_without_a_cache_are_not_run() {
    let m = model(false, false, DType::F32);
    let meta = meta(None);
    let input = ids(&[3, 1]);
    match m.forward(&input, None, &meta, false).unwrap() {
        ModelCall::Norm { xs } => assert_eq!(xs.dims(), &[2, 2]),
        _ => unreachable!(),
    }
    let call = m.forward(&input, Some(1), &meta, false).unwrap();
    let out = match &call {
        ModelCall::Layer { idx: 0, xs } => xs.clone(),
        _ => unreachable!(),
    };
    match m.forward_next(call, out, Some(1), &meta).unwrap() {
        ModelCall::Norm { .. } => {}
        _ => unreachable!(),
    }
    let far = ModelCall::Layer { idx: 1, xs: input.clone() };
    assert!(!m.can_take(&far, &input, Some(1), &meta));
    assert!(m.can_take(&far, &input, Some(9), &meta));
}

#[test]
fn embedded_inputs_are_taken_as_they_are() {
    let m = model(true, false, DType::F32);
    let xs = Tensor::from_vec(vec![1.0f32, 2.0, 3.0, 4.0], (2, 2), &Device::Cpu).unwrap();
    let meta = meta(Some(vec![2]));
    let started = [
        m.forward(&xs, None, &meta, true),
        m.forward_embedding(&xs, None, &meta, true),
        m.forward_with_deepstack(&xs, None, &meta, true, &None, &Some(vec![xs.clone()])),
    ];
    for call in started {
        let call = call.unwrap();
        let picked = match &call {
            ModelCall::Norm { xs } => {
                assert_eq!(xs.to_vec2::<f32>().unwrap(), vec![vec![3.0, 4.0]]);
                xs.clone()
            }
            _ => unreachable!(),
        };
        // Packed weights: nothing is cast around the output layer.
        let call = m.forward_next(call, picked.clone(), None, &meta).unwrap();
        match &call {
            ModelCall::LmHead { xs } => assert_eq!(xs.dtype(), DType::F32),
            _ => unreachable!(),
        }
        let wide = picked.to_dtype(DType::F64).unwrap();
        match m.forward_next(call, wide, None, &meta).unwrap() {
            ModelCall::Done { xs } => assert_eq!(xs.dtype(), DType::F64),
            _ => unreachable!(),
        }
    }
}

#[test]
fn sequences_have_at_least_one_token() {
    let m = model(false, false, DType::F32);
    assert!(!m.can_start(&ids(&[1]), None, &meta(Some(vec![0])), false));
    assert!(m.can_start(&ids(&[1]), Some(1), &meta(Some(vec![0])), false));
    let far = model(false, false, DType::F32)
        .forward(&ids(&[1]), None, &meta(Some(vec![2])), false);
    assert!(far.is_err());
}

#[test]
fn sums_of_integers_do_not_pass() {
    let call = LayerCall::Attention { xs: ids(&[1]), residual: ids(&[1]) };
    assert!(!can_take(&call, &ids(&[1])));
    assert!(can_take(&call, &t(&[1.0])));
    let call = LayerCall::Mlp {
        xs: ids(&[1]),
        residual: t(&[1.0]),
        shared: Some(t(&[1.0])),
        is_prefill: None,
    };
    assert!(!can_take(&call, &ids(&[1])));
}

#[test]
fn only_so_many_dimensions_can_be_added() {
    let ones = |n: usize| Tensor::ones(vec![2; n], DType::F32, &Device::Cpu).unwrap();
    let none = |n: usize| Tensor::zeros(vec![0; n], DType::F32, &Device::Cpu).unwrap();
    let layer = DeepSeekDecoderLayer { mlp: MoeOrMlp::Mlp, shared_expert: true };
    let attention = |t: Tensor| LayerCall::Attention { xs: t.clone(), residual: t };
    assert!(!can_take(&attention(ones(9)), &ones(9)));
    match next(&layer, attention(ones(8)), ones(8), true) {
        LayerCall::PostAttentionNorm { xs } => {
            assert_eq!(v(&xs.flatten_all().unwrap()), vec![2.0; 256]);
        }
        _ => unreachable!(),
    }
    // Nothing is added where there are no elements, or where tensors do not go together.
    match next(&layer, attention(none(9)), none(9), true) {
        LayerCall::PostAttentionNorm { xs } => assert_eq!(xs.dims(), &[0; 9]),
        _ => unreachable!(),
    }
    assert!(can_take(&attention(ones(9)), &ones(10)));
    assert!(layer.forward_next(attention(ones(9)), ones(10), true).is_err());
    let mlp = |t: Tensor, shared: Option<Tensor>| LayerCall::Mlp {
        xs: t.clone(),
        residual: t,
        shared,
        is_prefill: None,
    };
    assert!(!can_take(&mlp(ones(9), None), &ones(9)));
    assert!(!can_take(&mlp(ones(8), Some(ones(9))), &ones(9)));
    assert!(can_take(&mlp(ones(8), Some(ones(8))), &ones(8)));
}

#[test]
fn masks_are_laid_out() {
    let m = model(false, false, DType::F32);
    let mask = m.mask_build(&InputMetadata { is_prefill: true, seqlens: Some(vec![2, 3]) });
    assert_eq!((mask.dtype, mask.is_prefill), (DType::BF16, true));
    assert_eq!((mask.seqlens, mask.sliding_window), (vec![2, 3], Some(5)));
    let mask = m.mask_build(&InputMetadata { is_prefill: false, seqlens: None });
    assert!(mask.seqlens.is_empty() && !mask.is_prefill);
}

#[test]
fn tokens_may_have_other_types() {
    let m = model(false, false, DType::F32);
    let narrow = ids(&[2]).to_dtype(DType::U8).unwrap();
    let wide = ids(&[2]).to_dtype(DType::I64).unwrap();
    for x in [narrow, wide] {
        let e = m.embed_forward(&x).unwrap();
        assert_eq!(e.to_vec2::<f32>().unwrap(), vec![vec![4.0, 5.0]]);
    }
    assert!(m.embed_forward(&ids(&[2]).to_dtype(DType::F32).unwrap()).is_err());
    assert!(m.embed_forward(&ids(&[2]).to_dtype(DType::I32).unwrap()).is_err());
    let none = m.embed_forward(&ids(&[u32::MAX])).unwrap();
    assert_eq!(none.to_vec2::<f32>().unwrap(), vec![vec![0.0, 0.0]]);
    let negative = (wide_of(1) - wide_of(2).to_dtype(DType::I64).unwrap()).unwrap();
    assert!(m.embed_forward(&negative).is_err());
}

fn wide_of(n: u32) -> Tensor {
    ids(&[n]).to_dtype(DType::I64).unwrap()
}

#[test]
fn embedded_tokens_start_as_the_tokens_do() {
    let m = model(false, false, DType::F32);
    let meta = meta(Some(vec![1, 3]));
    let input = ids(&[3, 1, 2]);
    let e = m.embed_forward(&input).unwrap();
    let picked = |call: ModelCall| match call {
        ModelCall::Norm { xs } => xs.to_vec2::<f32>().unwrap(),
        _ => unreachable!(),
    };
    let on_tokens = picked(m.forward(&input, None, &meta, false).unwrap());
    let on_embedded = picked(m.forward(&e, None, &meta, true).unwrap());
    assert_eq!(on_tokens, on_embedded);
}

#[test]
fn empty_tensors_that_start_later_do_not_pass() {
    let m = model(false, false, DType::F32);
    let meta = meta(Some(vec![1]));
    let cut = Tensor::zeros((0, 3), DType::F32, &Device::Cpu).unwrap().narrow(1, 1, 2).unwrap();
    assert!(!m.can_start(&cut, None, &meta, true));
    let whole = Tensor::zeros((0, 2), DType::F32, &Device::Cpu).unwrap();
    assert!(m.can_start(&whole, None, &meta, true));
    assert!(m.forward(&whole, None, &meta, true).is_err());
    let norm = ModelCall::Norm { xs: cut.clone() };
    assert!(!m.can_take(&norm, &cut, None, &meta));
    assert!(m.can_take(&norm, &whole, None, &meta));
    let mut cut_table = model(false, false, DType::F32);
    cut_table.embed_tokens = cut;
    assert!(!cut_table.can_embed(&ids(&[])));
}

#[test]
fn a_layer_keeps_the_type_of_its_input() {
    let layer = DeepSeekDecoderLayer { mlp: MoeOrMlp::Mlp, shared_expert: false };
    let call = LayerCall::Attention { xs: t(&[1.0]), residual: t(&[1.0]) };
    let wide = t(&[1.0]).to_dtype(DType::F64).unwrap();
    assert!(layer.forward_next(call, wide, true).is_err());
}
