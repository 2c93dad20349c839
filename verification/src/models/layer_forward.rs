//! Running a layer. The parts of a layer are run elsewhere, one at a time: each step here says
//! which part is next and on what, and takes what came out of it.

use crate::models::deepseek3::{DeepSeekDecoderLayer, MoeOrMlp};
use crate::utils::error::ShardError;
use crate::utils::tensor;
use candle_core::Tensor;
use vstd::prelude::*;

verus! {

/// The part of a layer that is to be run next, on `xs`. The other tensors are kept for later.
#[derive(Debug)]
pub enum LayerCall {
    InputNorm { xs: Tensor },
    Attention { xs: Tensor, residual: Tensor },
    PostAttentionNorm { xs: Tensor },
    SharedExpert { xs: Tensor, residual: Tensor },
    /// Experts are also told whether tokens are seen for the first time.
    Mlp { xs: Tensor, residual: Tensor, shared: Option<Tensor>, is_prefill: Option<bool> },
    Done { xs: Tensor },
}

impl MoeOrMlp {
    /// What is told to it besides its input.
    pub open spec fn told(&self, is_prefill: bool) -> Option<bool> {
        match self {
            MoeOrMlp::Mlp => None,
            _ => Some(is_prefill),
        }
    }

    /// Tells it what it has to know besides its input.
    pub fn forward(&self, is_prefill: bool) -> (r: Option<bool>)
        ensures
            r == self.told(is_prefill),
    {
        match self {
            MoeOrMlp::Mlp => None,
            MoeOrMlp::FusedMoe => Some(is_prefill),
            MoeOrMlp::FusedMoeFp8 => Some(is_prefill),
            MoeOrMlp::FusedMoeGGUF => Some(is_prefill),
            MoeOrMlp::FusedMoeISQ => Some(is_prefill),
        }
    }
}

/// The elements of a tensor can be counted and fit in memory.
pub open spec fn counted(t: Tensor) -> bool {
    tensor::countable(tensor::tensor_dims(t), tensor::elem_size(tensor::tensor_dtype(t)))
}

/// `s` is the sum of what two tensors of the same dimensions hold. Unless they have no elements,
/// they have the same type.
pub open spec fn is_tensor_sum(a: Tensor, b: Tensor, s: Tensor) -> bool {
    let dtype = tensor::tensor_dtype(a);
    let dims = tensor::tensor_dims(a);
    &&& tensor::tensor_dims(b) == dims
    &&& tensor::tensor_dims(s) == dims
    &&& tensor::tensor_dtype(s) == dtype
    &&& tensor::tensor_on_cpu(s) == tensor::tensor_on_cpu(a)
    &&& !tensor::is_empty(dims) ==> tensor::tensor_dtype(b) == dtype
    &&& !tensor::is_empty(dims) && tensor::computes(dtype) ==> exists|x: Seq<u8>, y: Seq<u8>|
        #[trigger]
        tensor::held(a, x) && #[trigger] tensor::held(b, y) && tensor::is_sum(
            dtype,
            tensor::elem_count(dims),
            x,
            y,
            tensor::made_bytes(s),
        )
}

/// Two tensors in host memory that go together, of a type that candle computes with.
pub open spec fn addable(a: Tensor, b: Tensor) -> bool {
    &&& tensor::tensor_dims(a) == tensor::tensor_dims(b)
    &&& tensor::tensor_dtype(a) == tensor::tensor_dtype(b)
    &&& tensor::computes(tensor::tensor_dtype(a))
    &&& tensor::tensor_on_cpu(a)
    &&& tensor::tensor_on_cpu(b)
}

/// What adding two tensors comes to.
pub open spec fn sum_outcome(a: Tensor, b: Tensor, r: Option<Tensor>) -> bool {
    &&& addable(a, b) ==> r is Some
    &&& r matches Some(s) ==> is_tensor_sum(a, b, s)
}

/// What comes out of a part can be taken: the sums that are made of it can be counted, those of
/// integers fit, and none has too many dimensions.
pub open spec fn takes(call: LayerCall, output: Tensor) -> bool {
    match call {
        LayerCall::Attention { residual, .. } => {
            &&& counted(output)
            &&& tensor::sums_fit(output, residual)
            &&& tensor::walks_together(output, residual)
        },
        LayerCall::Mlp { residual, shared, .. } => {
            &&& counted(residual)
            &&& tensor::walks_together(residual, output)
            &&& match shared {
                None => tensor::sums_fit(residual, output),
                Some(s) => {
                    &&& counted(output)
                    &&& tensor::sums_fit(output, s)
                    &&& tensor::walks_together(output, s)
                    &&& forall|both: Tensor| #[trigger]
                        is_tensor_sum(output, s, both) ==> tensor::sums_fit(residual, both)
                },
            }
        },
        LayerCall::Done { .. } => false,
        _ => true,
    }
}

/// No sum that is made of what comes out of a part is one of integers.
pub open spec fn adds_no_ints(call: LayerCall, output: Tensor) -> bool {
    match call {
        LayerCall::Attention { .. } => !is_int_tensor(output),
        LayerCall::Mlp { residual, shared, .. } => !is_int_tensor(residual) && (shared is Some
            ==> !is_int_tensor(output)),
        _ => true,
    }
}

/// The elements of a tensor are integers.
pub open spec fn is_int_tensor(t: Tensor) -> bool {
    tensor::int_range(tensor::tensor_dtype(t)) is Some
}

/// What is next in a layer once `output` came out of a part. It is nothing if a sum fails.
pub open spec fn layer_next(
    layer: DeepSeekDecoderLayer,
    is_prefill: bool,
    call: LayerCall,
    output: Tensor,
    r: Option<LayerCall>,
) -> bool {
    match call {
        LayerCall::InputNorm { xs } => r == Some(
            LayerCall::Attention { xs: output, residual: xs },
        ),
        LayerCall::Attention { xs: _, residual } => sum_outcome(
            output,
            residual,
            match r {
                Some(LayerCall::PostAttentionNorm { xs }) => Some(xs),
                _ => None,
            },
        ) && (r is Some ==> r->0 is PostAttentionNorm),
        LayerCall::PostAttentionNorm { xs } => r == Some(
            if layer.shared_expert {
                LayerCall::SharedExpert { xs: output, residual: xs }
            } else {
                LayerCall::Mlp {
                    xs: output,
                    residual: xs,
                    shared: None,
                    is_prefill: layer.mlp.told(is_prefill),
                }
            },
        ),
        LayerCall::SharedExpert { xs, residual } => r == Some(
            LayerCall::Mlp {
                xs,
                residual,
                shared: Some(output),
                is_prefill: layer.mlp.told(is_prefill),
            },
        ),
        LayerCall::Mlp { xs: _, residual, shared, is_prefill: _ } => {
            &&& r is Some ==> r->0 is Done
            &&& match shared {
                None => sum_outcome(residual, output, done(r)),
                Some(s) => {
                    &&& done(r) matches Some(y) ==> exists|both: Tensor| #[trigger]
                        is_tensor_sum(output, s, both) && is_tensor_sum(residual, both, y)
                    &&& addable(output, s) && addable(residual, output) ==> r is Some
                },
            }
        },
        LayerCall::Done { .. } => false,
    }
}

/// The tensor that came out of a layer.
pub open spec fn done(r: Option<LayerCall>) -> Option<Tensor> {
    match r {
        Some(LayerCall::Done { xs }) => Some(xs),
        _ => None,
    }
}

impl DeepSeekDecoderLayer {
    /// Starts to send `xs` through the layer.
    pub fn forward(&self, xs: &Tensor) -> (r: LayerCall)
        ensures
            r == (LayerCall::InputNorm { xs: *xs }),
    {
        LayerCall::InputNorm { xs: xs.clone() }
    }

    /// Takes what came out of a part and says which is next.
    pub fn forward_next(&self, call: LayerCall, output: Tensor, is_prefill: bool) -> (r: Result<
        LayerCall,
        ShardError,
    >)
        requires
            takes(call, output),
        ensures
            layer_next(*self, is_prefill, call, output, r.ok()),
            r is Err ==> r->Err_0 is Candle,
    {
        match call {
            LayerCall::InputNorm { xs } => Ok(LayerCall::Attention { xs: output, residual: xs }),
            LayerCall::Attention { xs: _, residual } => match output.add(&residual) {
                Ok(sum) => {
                    assert(is_tensor_sum(output, residual, sum));
                    Ok(LayerCall::PostAttentionNorm { xs: sum })
                },
                Err(e) => Err(ShardError::Candle(e)),
            },
            LayerCall::PostAttentionNorm { xs } => if self.shared_expert {
                Ok(LayerCall::SharedExpert { xs: output, residual: xs })
            } else {
                Ok(
                    LayerCall::Mlp {
                        xs: output,
                        residual: xs,
                        shared: None,
                        is_prefill: self.mlp.forward(is_prefill),
                    },
                )
            },
            LayerCall::SharedExpert { xs, residual } => Ok(
                LayerCall::Mlp {
                    xs,
                    residual,
                    shared: Some(output),
                    is_prefill: self.mlp.forward(is_prefill),
                },
            ),
            LayerCall::Mlp { xs: _, residual, shared, is_prefill: _ } => {
                let behind = match shared {
                    Some(s) => match output.add(&s) {
                        Ok(both) => {
                            assert(is_tensor_sum(output, s, both));
                            both
                        },
                        Err(e) => {
                            return Err(ShardError::Candle(e));
                        },
                    },
                    None => output,
                };
                match residual.add(&behind) {
                    Ok(y) => {
                        assert(is_tensor_sum(residual, behind, y));
                        Ok(LayerCall::Done { xs: y })
                    },
                    Err(e) => Err(ShardError::Candle(e)),
                }
            },
            LayerCall::Done { xs } => Ok(LayerCall::Done { xs }),
        }
    }
}

/// Tests whether what comes out of a part can be taken. Sums of integers are not looked into: they
/// do not pass.
pub fn can_take(call: &LayerCall, output: &Tensor) -> (r: bool)
    ensures
        r ==> takes(*call, *output),
        adds_no_ints(*call, *output) ==> r == takes(*call, *output),
{
    match call {
        LayerCall::Attention { residual, .. } => is_counted(output) && !tensor::is_int(
            output.dtype(),
        ) && tensor::can_walk_together(output, residual),
        LayerCall::Mlp { residual, shared, .. } => {
            if !is_counted(residual) || tensor::is_int(residual.dtype())
                || !tensor::can_walk_together(residual, output) {
                return false;
            }
            match shared {
                Some(s) => is_counted(output) && !tensor::is_int(output.dtype())
                    && tensor::can_walk_together(output, s),
                None => true,
            }
        },
        LayerCall::Done { .. } => false,
        _ => true,
    }
}

fn is_counted(t: &Tensor) -> (r: bool)
    ensures
        r == counted(*t),
{
    tensor::is_countable(t.dims(), t.dtype().size_in_bytes())
}

/// `calls` and `outputs` are a run of a layer on `xs` from its start to its end: what came out of
/// each part, and the parts in turn.
pub open spec fn is_layer_run(
    layer: DeepSeekDecoderLayer,
    is_prefill: bool,
    xs: Tensor,
    calls: Seq<LayerCall>,
    outputs: Seq<Tensor>,
) -> bool {
    &&& calls.len() == outputs.len() + 1
    &&& calls[0] == (LayerCall::InputNorm { xs })
    &&& forall|i: int|
        #![trigger outputs[i]]
        0 <= i < outputs.len() ==> layer_next(
            layer,
            is_prefill,
            calls[i],
            outputs[i],
            Some(calls[i + 1]),
        )
    &&& calls.last() is Done
}

/// A layer adds what its attention made to its input, and to that sum what the rest of the layer
/// made of it. The rest is run on one and the same tensor: the norm of that sum. What comes out
/// has the dimensions of the input and, if it has elements, their type.
pub proof fn law_layer_run(
    layer: DeepSeekDecoderLayer,
    is_prefill: bool,
    xs: Tensor,
    calls: Seq<LayerCall>,
    outputs: Seq<Tensor>,
)
    requires
        is_layer_run(layer, is_prefill, xs, calls, outputs),
    ensures
        outputs.len() == (if layer.shared_expert {
            5nat
        } else {
            4nat
        }),
        calls[1] == (LayerCall::Attention { xs: outputs[0], residual: xs }),
        calls[2] is PostAttentionNorm,
        is_tensor_sum(outputs[1], xs, calls[2]->PostAttentionNorm_xs),
        tensor::tensor_dims(calls.last()->Done_xs) == tensor::tensor_dims(xs),
        !tensor::is_empty(tensor::tensor_dims(xs)) ==> tensor::tensor_dtype(calls.last()->Done_xs)
            == tensor::tensor_dtype(xs),
        ({
            let residual = calls[2]->PostAttentionNorm_xs;
            let y = calls.last()->Done_xs;
            if layer.shared_expert {
                &&& calls[3] == (LayerCall::SharedExpert { xs: outputs[2], residual })
                &&& calls[4] is Mlp
                &&& calls[4]->Mlp_xs == outputs[2]
                &&& exists|both: Tensor| #[trigger]
                    is_tensor_sum(outputs[4], outputs[3], both) && is_tensor_sum(residual, both, y)
            } else {
                &&& calls[3] is Mlp
                &&& calls[3]->Mlp_xs == outputs[2]
                &&& is_tensor_sum(residual, outputs[3], y)
            }
        }),
{
    let n = outputs.len();
    assert(calls[0] is InputNorm);
    if n == 0 {
        assert(calls.last() == calls[0]);
    }
    assert(layer_next(layer, is_prefill, calls[0], outputs[0], Some(calls[1])));
    if n == 1 {
        assert(calls.last() == calls[1]);
    }
    assert(layer_next(layer, is_prefill, calls[1], outputs[1], Some(calls[2])));
    if n == 2 {
        assert(calls.last() == calls[2]);
    }
    assert(layer_next(layer, is_prefill, calls[2], outputs[2], Some(calls[3])));
    if n == 3 {
        assert(calls.last() == calls[3]);
    }
    assert(layer_next(layer, is_prefill, calls[3], outputs[3], Some(calls[4])));
    if layer.shared_expert {
        if n == 4 {
            assert(calls.last() == calls[4]);
        }
        assert(layer_next(layer, is_prefill, calls[4], outputs[4], Some(calls[5])));
        if n > 5 {
            assert(layer_next(layer, is_prefill, calls[5], outputs[5], Some(calls[6])));
        }
    } else if n > 4 {
        assert(layer_next(layer, is_prefill, calls[4], outputs[4], Some(calls[5])));
    }
}

} // verus!
