//! What holds of every run of a layer and of a model.

use crate::models::causal_lm::DeepSeekForCausalLM;
use crate::models::deepseek3::{DeepSeekDecoderLayer, LayerPart, MoeOrMlp};
use crate::models::forward;
use crate::models::forward::{last_rows, InputMetadata, MaskBuild, ModelCall};
use crate::models::layer_forward;
use crate::models::layer_forward::LayerCall;
use crate::utils::error::ShardError;
use crate::utils::tensor;
use candle_core::{DType, Tensor};
use vstd::prelude::*;

verus! {

/// Experts are told whether tokens are seen for the first time, and a plain perceptron is not.
pub open spec fn told_rightly(mlp: MoeOrMlp, is_prefill: bool, told: Option<bool>) -> bool {
    &&& told is None <==> mlp == MoeOrMlp::Mlp
    &&& told is Some ==> told->0 == is_prefill
}

/// What a layer's experts or perceptron are told is what the run is told.
pub proof fn law_told(mlp: MoeOrMlp, is_prefill: bool, r: Option<bool>)
    requires
        call_ensures(MoeOrMlp::forward, (&mlp, is_prefill), r),
    ensures
        told_rightly(mlp, is_prefill, r),
{
}

/// In every run of a layer, whatever it has besides, its experts are told what the run is told.
pub proof fn law_experts_are_told(
    layer: DeepSeekDecoderLayer,
    is_prefill: bool,
    xs: Tensor,
    calls: Seq<LayerCall>,
    outputs: Seq<Tensor>,
    i: int,
)
    requires
        layer_forward::is_layer_run(layer, is_prefill, xs, calls, outputs),
        0 <= i < calls.len(),
        calls[i] is Mlp,
    ensures
        told_rightly(layer.mlp, is_prefill, calls[i]->Mlp_is_prefill),
{
    assert(i > 0) by {
        assert(calls[0] is InputNorm);
    }
    let last = i - 1;
    assert(layer_forward::layer_next(
        layer,
        is_prefill,
        calls[last],
        outputs[last],
        Some(calls[last + 1]),
    ));
}

/// A run of a layer starts with the norm of its input.
pub proof fn law_layer_start(layer: DeepSeekDecoderLayer, xs: Tensor, r: LayerCall)
    requires
        call_ensures(DeepSeekDecoderLayer::forward, (&layer, &xs), r),
    ensures
        r is InputNorm,
        r->InputNorm_xs == xs,
{
}

/// `s` is made of the elements of two tensors, added one by one.
pub open spec fn adds_up(a: Tensor, b: Tensor, s: Tensor) -> bool {
    let dims = tensor::tensor_dims(a);
    let dtype = tensor::tensor_dtype(a);
    let size = tensor::elem_size(dtype);
    &&& tensor::tensor_dims(b) == dims
    &&& tensor::tensor_dims(s) == dims
    &&& tensor::tensor_dtype(s) == dtype
    &&& tensor::tensor_on_cpu(s) == tensor::tensor_on_cpu(a)
    &&& tensor::elem_count(dims) > 0 ==> tensor::tensor_dtype(b) == dtype
    &&& tensor::elem_count(dims) > 0 && tensor::computes(dtype) ==> exists|
        x: Seq<u8>,
        y: Seq<u8>,
    | #[trigger]
        tensor::held(a, x) && #[trigger] tensor::held(b, y) && forall|i: int|
            0 <= i < tensor::elem_count(dims) ==> tensor::elem_sum(
                dtype,
                #[trigger] x.subrange(i * size, i * size + size),
                y.subrange(i * size, i * size + size),
                tensor::made_bytes(s).subrange(i * size, i * size + size),
            )
}

proof fn lemma_not_empty(dims: Seq<usize>)
    ensures
        tensor::elem_count(dims) > 0 <==> !tensor::is_empty(dims),
    decreases dims.len(),
{
    if dims.len() > 0 {
        let before = dims.drop_last();
        lemma_not_empty(before);
        if tensor::is_empty(before) {
            let k = choose|k: int| 0 <= k < before.len() && #[trigger] before[k] == 0;
            assert(dims[k] == 0);
            assert(0 * dims.last() == 0);
        } else if tensor::is_empty(dims) {
            let k = choose|k: int| 0 <= k < dims.len() && #[trigger] dims[k] == 0;
            if k < before.len() {
                assert(before[k] == 0);
            }
            assert(tensor::elem_count(before) * 0 == 0);
        } else {
            assert(dims[dims.len() - 1] != 0);
            let a = tensor::elem_count(before);
            let b = dims.last() as nat;
            assert(a * b > 0) by (nonlinear_arith)
                requires
                    a > 0,
                    b > 0,
            ;
        }
    }
}

proof fn lemma_adds_up(a: Tensor, b: Tensor, s: Tensor)
    requires
        layer_forward::is_tensor_sum(a, b, s),
    ensures
        adds_up(a, b, s),
{
    let dims = tensor::tensor_dims(a);
    let dtype = tensor::tensor_dtype(a);
    let size = tensor::elem_size(dtype);
    let n = tensor::elem_count(dims);
    lemma_not_empty(dims);
    if n > 0 && tensor::computes(dtype) {
        let (x, y) = choose|x: Seq<u8>, y: Seq<u8>| #[trigger]
            tensor::held(a, x) && #[trigger] tensor::held(b, y) && tensor::is_sum(
                dtype,
                n,
                x,
                y,
                tensor::made_bytes(s),
            );
        assert forall|i: int| 0 <= i < n implies tensor::elem_sum(
            dtype,
            #[trigger] x.subrange(i * size, i * size + size),
            y.subrange(i * size, i * size + size),
            tensor::made_bytes(s).subrange(i * size, i * size + size),
        ) by {
            assert(tensor::piece(x, size, i) == x.subrange(i * size, i * size + size));
        }
    }
}

/// What a layer does with what came out of a part. Its attention is run on the norm of its input,
/// and what it makes is added to that input. The rest is run on the norm of the sum, and added to
/// it; what the shared experts make is added to what the others make first.
pub proof fn law_layer_step(
    layer: DeepSeekDecoderLayer,
    call: LayerCall,
    output: Tensor,
    is_prefill: bool,
    r: Result<LayerCall, ShardError>,
)
    requires
        call_ensures(DeepSeekDecoderLayer::forward_next, (&layer, call, output, is_prefill), r),
    ensures
        r is Err ==> r->Err_0 is Candle,
        call is InputNorm ==> r is Ok && r->Ok_0 is Attention && r->Ok_0->Attention_xs == output
            && r->Ok_0->Attention_residual == call->InputNorm_xs,
        call is Attention && r is Ok ==> r->Ok_0 is PostAttentionNorm && adds_up(
            output,
            call->Attention_residual,
            r->Ok_0->PostAttentionNorm_xs,
        ),
        call is PostAttentionNorm && layer.shared_expert ==> r is Ok && r->Ok_0 is SharedExpert
            && r->Ok_0->SharedExpert_xs == output && r->Ok_0->SharedExpert_residual
            == call->PostAttentionNorm_xs,
        call is PostAttentionNorm && !layer.shared_expert ==> r is Ok && r->Ok_0 is Mlp
            && r->Ok_0->Mlp_xs == output && r->Ok_0->Mlp_residual == call->PostAttentionNorm_xs
            && r->Ok_0->Mlp_shared is None && told_rightly(
            layer.mlp,
            is_prefill,
            r->Ok_0->Mlp_is_prefill,
        ),
        call is SharedExpert ==> r is Ok && r->Ok_0 is Mlp && r->Ok_0->Mlp_xs
            == call->SharedExpert_xs && r->Ok_0->Mlp_residual == call->SharedExpert_residual
            && r->Ok_0->Mlp_shared == Some(output) && told_rightly(
            layer.mlp,
            is_prefill,
            r->Ok_0->Mlp_is_prefill,
        ),
        call is Mlp && r is Ok ==> r->Ok_0 is Done && match call->Mlp_shared {
            None => adds_up(call->Mlp_residual, output, r->Ok_0->Done_xs),
            Some(s) => exists|both: Tensor| #[trigger]
                adds_up(output, s, both) && adds_up(call->Mlp_residual, both, r->Ok_0->Done_xs),
        },
{
    match call {
        LayerCall::Attention { residual, .. } => {
            if r is Ok {
                lemma_adds_up(output, residual, r->Ok_0->PostAttentionNorm_xs);
            }
        },
        LayerCall::Mlp { residual, shared, .. } => {
            if r is Ok {
                let y = r->Ok_0->Done_xs;
                match shared {
                    None => {
                        lemma_adds_up(residual, output, y);
                    },
                    Some(s) => {
                        let both = choose|both: Tensor| #[trigger]
                            layer_forward::is_tensor_sum(output, s, both)
                                && layer_forward::is_tensor_sum(residual, both, y);
                        lemma_adds_up(output, s, both);
                        lemma_adds_up(residual, both, y);
                    },
                }
            }
        },
        _ => {},
    }
}

/// Two tensors in host memory of the same dimensions and the same type, which candle computes with.
pub open spec fn alike(a: Tensor, b: Tensor) -> bool {
    &&& tensor::tensor_dims(a) == tensor::tensor_dims(b)
    &&& tensor::tensor_dtype(a) == tensor::tensor_dtype(b)
    &&& tensor::computes(tensor::tensor_dtype(a))
    &&& tensor::tensor_on_cpu(a) && tensor::tensor_on_cpu(b)
}

/// In host memory a layer goes on as long as what comes out of its parts is like its input.
pub proof fn law_layer_goes_on(
    layer: DeepSeekDecoderLayer,
    call: LayerCall,
    output: Tensor,
    is_prefill: bool,
    r: Result<LayerCall, ShardError>,
)
    requires
        call_ensures(DeepSeekDecoderLayer::forward_next, (&layer, call, output, is_prefill), r),
        call is Attention ==> alike(output, call->Attention_residual),
        call is Mlp ==> alike(output, call->Mlp_residual),
        call is Mlp && call->Mlp_shared is Some ==> alike(output, call->Mlp_shared->0),
        !(call is Done),
    ensures
        r is Ok,
{
}

/// In every run of a layer, each part is run on what it is made for: the shared experts and the
/// others on the norm of one and the same sum, and what the shared ones made is kept for the end.
pub proof fn law_layer_wiring(
    layer: DeepSeekDecoderLayer,
    is_prefill: bool,
    xs: Tensor,
    calls: Seq<LayerCall>,
    outputs: Seq<Tensor>,
)
    requires
        layer_forward::is_layer_run(layer, is_prefill, xs, calls, outputs),
    ensures
        calls[0]->InputNorm_xs == xs,
        calls[1] is Attention,
        calls[1]->Attention_xs == outputs[0],
        calls[1]->Attention_residual == xs,
        calls[2] is PostAttentionNorm,
        adds_up(outputs[1], xs, calls[2]->PostAttentionNorm_xs),
        layer.shared_expert ==> {
            &&& outputs.len() == 5
            &&& calls[3] is SharedExpert
            &&& calls[3]->SharedExpert_xs == outputs[2]
            &&& calls[4] is Mlp
            &&& calls[4]->Mlp_xs == outputs[2]
            &&& calls[4]->Mlp_residual == calls[2]->PostAttentionNorm_xs
            &&& calls[4]->Mlp_shared == Some(outputs[3])
            &&& exists|both: Tensor| #[trigger]
                adds_up(outputs[4], outputs[3], both) && adds_up(
                    calls[2]->PostAttentionNorm_xs,
                    both,
                    calls.last()->Done_xs,
                )
        },
        !layer.shared_expert ==> {
            &&& outputs.len() == 4
            &&& calls[3] is Mlp
            &&& calls[3]->Mlp_xs == outputs[2]
            &&& calls[3]->Mlp_residual == calls[2]->PostAttentionNorm_xs
            &&& calls[3]->Mlp_shared is None
            &&& adds_up(calls[2]->PostAttentionNorm_xs, outputs[3], calls.last()->Done_xs)
        },
{
    layer_forward::law_layer_run(layer, is_prefill, xs, calls, outputs);
    let sum = calls[2]->PostAttentionNorm_xs;
    let y = calls.last()->Done_xs;
    lemma_adds_up(outputs[1], xs, sum);
    assert(layer_forward::layer_next(layer, is_prefill, calls[2], outputs[2], Some(calls[3])));
    assert(layer_forward::layer_next(layer, is_prefill, calls[3], outputs[3], Some(calls[4])));
    if layer.shared_expert {
        let both = choose|both: Tensor| #[trigger]
            layer_forward::is_tensor_sum(outputs[4], outputs[3], both)
                && layer_forward::is_tensor_sum(sum, both, y);
        lemma_adds_up(outputs[4], outputs[3], both);
        lemma_adds_up(sum, both, y);
    } else {
        lemma_adds_up(sum, outputs[3], y);
    }
}

/// What is completed of a layer is its attention.
pub proof fn law_layer_post_load(layer: DeepSeekDecoderLayer, i: usize, r: LayerPart)
    requires
        call_ensures(DeepSeekDecoderLayer::post_load, (&layer, i), r),
    ensures
        r == (LayerPart::Attention { layer_idx: i }),
{
}

/// How many layers a run goes through: as many as there are caches for, and no more than there are;
/// none without caches.
pub open spec fn depth(model: DeepSeekForCausalLM, n_caches: Option<usize>, n: int) -> bool {
    &&& n_caches is None ==> n == 0
    &&& n_caches matches Some(k) ==> n <= k && n <= model.layers@.len() && (n == k || n
        == model.layers@.len())
}

/// `c` is `t` in the given type: `t` itself if it has the type, and else a tensor of the same
/// dimensions whose elements are casts of those of `t`.
pub open spec fn in_type(t: Tensor, dtype: DType, c: Tensor) -> bool {
    let from = tensor::tensor_dtype(t);
    let dims = tensor::tensor_dims(t);
    &&& tensor::tensor_dtype(c) == dtype
    &&& tensor::tensor_dims(c) == dims
    &&& tensor::tensor_on_cpu(c) == tensor::tensor_on_cpu(t)
    &&& from == dtype ==> c == t
    &&& from != dtype ==> exists|b: Seq<u8>| #[trigger]
        tensor::held(t, b) && forall|i: int|
            0 <= i < tensor::elem_count(dims) ==> tensor::elem_cast(
                from,
                dtype,
                #[trigger] b.subrange(
                    i * tensor::elem_size(from),
                    i * tensor::elem_size(from) + tensor::elem_size(from),
                ),
                tensor::made_bytes(c).subrange(
                    i * tensor::elem_size(dtype),
                    i * tensor::elem_size(dtype) + tensor::elem_size(dtype),
                ),
            )
}

proof fn lemma_in_type(t: Tensor, dtype: DType, c: Tensor)
    requires
        forward::is_cast_of(t, dtype, c),
    ensures
        in_type(t, dtype, c),
{
    let from = tensor::tensor_dtype(t);
    let dims = tensor::tensor_dims(t);
    if from != dtype {
        let (sf, st) = (tensor::elem_size(from), tensor::elem_size(dtype));
        let n = tensor::elem_count(dims);
        let b = choose|b: Seq<u8>| #[trigger]
            tensor::held(t, b) && tensor::is_cast(from, dtype, n, b, tensor::made_bytes(c));
        assert forall|i: int| 0 <= i < n implies tensor::elem_cast(
            from,
            dtype,
            #[trigger] b.subrange(i * sf, i * sf + sf),
            tensor::made_bytes(c).subrange(i * st, i * st + st),
        ) by {
            assert(tensor::piece(b, sf, i) == b.subrange(i * sf, i * sf + sf));
        }
    }
}

/// `y` has the last row of each sequence of `xs`: row `i` is the one before the end of sequence
/// `i`. Without sequences it is `xs`.
pub open spec fn last_of_each(xs: Tensor, ends: Seq<u32>, y: Tensor) -> bool {
    let dims = tensor::tensor_dims(xs);
    let row = tensor::elem_count(dims.skip(1)) * tensor::elem_size(tensor::tensor_dtype(xs));
    &&& ends.len() == 0 ==> y == xs
    &&& ends.len() > 0 ==> {
        &&& tensor::tensor_dims(y).len() == dims.len()
        &&& dims.len() > 0 ==> tensor::tensor_dims(y)[0] == ends.len() as usize
        &&& forall|k: int| 1 <= k < dims.len() ==> #[trigger] tensor::tensor_dims(y)[k] == dims[k]
        &&& tensor::tensor_dtype(y) == tensor::tensor_dtype(xs)
        &&& tensor::tensor_on_cpu(y) == tensor::tensor_on_cpu(xs)
        &&& tensor::computes(tensor::tensor_dtype(xs)) ==> exists|b: Seq<u8>| #[trigger]
            tensor::held(xs, b) && forall|i: int|
                0 <= i < ends.len() && #[trigger] ends[i] <= dims[0] ==> tensor::made_bytes(
                    y,
                ).subrange(i * row, i * row + row) == b.subrange(
                    (ends[i] - 1) * row,
                    (ends[i] - 1) * row + row,
                )
    }
}

proof fn lemma_last_of_each(xs: Tensor, ends: Seq<u32>, y: Tensor)
    requires
        forward::pick_outcome(xs, ends, Some(y)),
    ensures
        last_of_each(xs, ends, y),
{
    if ends.len() > 0 {
        let dims = tensor::tensor_dims(xs);
        let row = tensor::row_size(xs);
        assert(row == tensor::elem_count(dims.skip(1)) * tensor::elem_size(
            tensor::tensor_dtype(xs),
        ));
        if tensor::computes(tensor::tensor_dtype(xs)) {
            let b = choose|b: Seq<u8>| #[trigger]
                tensor::held(xs, b) && forall|i: int|
                    0 <= i < ends.len() && #[trigger] ends[i] <= dims[0] ==> tensor::piece(
                        tensor::made_bytes(y),
                        row,
                        i,
                    ) == tensor::piece(b, row, ends[i] - 1);
            assert forall|i: int| 0 <= i < ends.len() && #[trigger] ends[i] <= dims[0] implies
                tensor::made_bytes(y).subrange(i * row, i * row + row) == b.subrange(
                (ends[i] - 1) * row,
                (ends[i] - 1) * row + row,
            ) by {
                assert(tensor::piece(tensor::made_bytes(y), row, i) == tensor::piece(
                    b,
                    row,
                    ends[i] - 1,
                ));
            }
        }
    }
}

/// Picking rows picks the last one of each sequence. In host memory it does so for a tensor that
/// lies row by row, has a type that candle computes with, and has all of these rows, and for no
/// other.
pub proof fn law_last_rows(xs: Tensor, seqlens: &[u32], r: Result<Tensor, ShardError>)
    requires
        call_ensures(last_rows, (xs, seqlens), r),
    ensures
        r is Ok ==> last_of_each(xs, seqlens@, r->Ok_0),
        seqlens@.len() == 0 ==> r is Ok,
        seqlens@.len() > 0 && tensor::tensor_dims(xs).len() == 0 ==> r is Err,
        seqlens@.len() > 0 && tensor::tensor_on_cpu(xs) && tensor::tensor_dims(xs).len() > 0 ==> (
        r is Ok <==> tensor::by_rows(xs) && tensor::computes(tensor::tensor_dtype(xs)) && forall|
            i: int,
        |
            0 <= i < seqlens@.len() ==> #[trigger] seqlens@[i] <= tensor::tensor_dims(xs)[0]),
{
    if r is Ok {
        lemma_last_of_each(xs, seqlens@, r->Ok_0);
    }
}

/// The greatest number that tokens of a type can have, which names none.
pub open spec fn no_token(dtype: DType) -> int {
    match dtype {
        DType::U8 => 255,
        DType::U32 => 0xffff_ffff,
        _ => 0x7fff_ffff_ffff_ffff,
    }
}

/// The types that numbers of tokens can have.
pub open spec fn numbers_tokens(dtype: DType) -> bool {
    dtype == DType::U8 || dtype == DType::U32 || dtype == DType::I64
}

/// `e` has a row of a table for each token: the one that the token's number names. In host memory
/// the number that names none gives zeros.
pub open spec fn looked_up(table: Tensor, hidden_size: usize, ids: Tensor, e: Tensor) -> bool {
    let dims = tensor::tensor_dims(table);
    let n = tensor::elem_count(tensor::tensor_dims(ids));
    let row = tensor::elem_count(dims.skip(1)) * tensor::elem_size(tensor::tensor_dtype(table));
    let none = no_token(tensor::tensor_dtype(ids));
    &&& tensor::tensor_dims(e).len() == tensor::tensor_dims(ids).len() + 1
    &&& tensor::tensor_dims(e).last() == hidden_size
    &&& tensor::tensor_dims(e).drop_last() == tensor::tensor_dims(ids)
    &&& tensor::tensor_dtype(e) == tensor::tensor_dtype(table)
    &&& tensor::tensor_on_cpu(e) == tensor::tensor_on_cpu(table)
    &&& tensor::computes(tensor::tensor_dtype(table)) && numbers_tokens(tensor::tensor_dtype(ids))
        ==> exists|v: Seq<int>, b: Seq<u8>|
        #![trigger tensor::held_ints(ids, v), tensor::held(table, b)]
        {
            &&& tensor::held_ints(ids, v)
            &&& tensor::held(table, b)
            &&& forall|i: int|
                0 <= i < n && #[trigger] v[i] != none && (v[i] as usize) < dims[0]
                    ==> tensor::made_bytes(e).subrange(i * row, i * row + row) == b.subrange(
                    (v[i] as usize) * row,
                    (v[i] as usize) * row + row,
                )
            &&& tensor::tensor_on_cpu(table) ==> forall|i: int|
                0 <= i < n && #[trigger] v[i] == none ==> tensor::made_bytes(e).subrange(
                    i * row,
                    i * row + row,
                ) == Seq::new(row, |k: int| 0u8)
        }
}

proof fn lemma_looked_up(table: Tensor, hidden_size: usize, ids: Tensor, e: Tensor)
    requires
        forward::is_lookup(table, hidden_size, ids, e),
    ensures
        looked_up(table, hidden_size, ids, e),
{
    let dims = tensor::tensor_dims(table);
    let n = tensor::elem_count(tensor::tensor_dims(ids));
    let row = tensor::row_size(table);
    let none = no_token(tensor::tensor_dtype(ids));
    assert(tensor::tensor_dims(e).drop_last() =~= tensor::tensor_dims(ids));
    if tensor::computes(tensor::tensor_dtype(table)) && numbers_tokens(tensor::tensor_dtype(ids)) {
        let limit = tensor::index_limit(tensor::tensor_dtype(ids))->0;
        assert(limit == none);
        let (v, b) = choose|v: Seq<int>, b: Seq<u8>|
            #![trigger tensor::held_ints(ids, v), tensor::held(table, b)]
            {
                &&& tensor::held_ints(ids, v)
                &&& tensor::held(table, b)
                &&& tensor::rows_looked_up(
                    tensor::made_bytes(e),
                    b,
                    row,
                    dims[0],
                    v,
                    n,
                    limit,
                )
                &&& tensor::tensor_on_cpu(table) ==> forall|i: int|
                    0 <= i < n && #[trigger] v[i] == limit ==> tensor::piece(
                        tensor::made_bytes(e),
                        row,
                        i,
                    ) == tensor::zero_bytes(row)
            };
        assert(tensor::held_ints(ids, v) && tensor::held(table, b));
        assert forall|i: int|
            0 <= i < n && #[trigger] v[i] != none && (v[i] as usize) < dims[0] implies
            tensor::made_bytes(e).subrange(i * row, i * row + row) == b.subrange(
            (v[i] as usize) * row,
            (v[i] as usize) * row + row,
        ) by {
            assert(tensor::piece(tensor::made_bytes(e), row, i) == tensor::piece(
                b,
                row,
                v[i] as usize as int,
            ));
        }
        if tensor::tensor_on_cpu(table) {
            assert forall|i: int| 0 <= i < n && #[trigger] v[i] == none implies tensor::made_bytes(
                e,
            ).subrange(i * row, i * row + row) == Seq::new(row, |k: int| 0u8) by {
                let part = tensor::piece(tensor::made_bytes(e), row, i);
                assert(part == tensor::zero_bytes(row));
                assert(tensor::zero_bytes(row) =~= Seq::new(row, |k: int| 0u8));
            }
        }
    }
}

/// The type of what a model makes of tokens: full precision if weights are packed or were
/// quantized, and else that of its table.
pub open spec fn made_in(model: DeepSeekForCausalLM, dtype: DType) -> bool {
    &&& model.is_qvar_builder || model.quantized ==> dtype == DType::F32
    &&& !model.is_qvar_builder && !model.quantized ==> dtype == tensor::tensor_dtype(
        model.embed_tokens,
    )
}

/// `x` is what a model makes of tokens.
pub open spec fn made_of_tokens(model: DeepSeekForCausalLM, ids: Tensor, x: Tensor) -> bool {
    &&& made_in(model, tensor::tensor_dtype(x))
    &&& exists|e: Tensor| #[trigger]
        looked_up(model.embed_tokens, model.hidden_size, ids, e) && in_type(
            e,
            tensor::tensor_dtype(x),
            x,
        )
}

proof fn lemma_made_of_tokens(model: DeepSeekForCausalLM, ids: Tensor, x: Tensor)
    requires
        forward::embed_outcome(model, ids, Some(x)),
    ensures
        made_of_tokens(model, ids, x),
{
    let e = choose|e: Tensor| #[trigger]
        forward::is_lookup(model.embed_tokens, model.hidden_size, ids, e) && forward::is_cast_of(
            e,
            forward::embedded_dtype(model),
            x,
        );
    lemma_looked_up(model.embed_tokens, model.hidden_size, ids, e);
    lemma_in_type(e, forward::embedded_dtype(model), x);
}

/// Looking up tokens gives each the row of the table that its number names. In host memory it
/// fails for numbers of a type that cannot number tokens and where no number that there may be is
/// known, and succeeds for a table that lies row by row, with rows of the right length of a type
/// that candle computes with, where all are known.
pub proof fn law_embedding(model: DeepSeekForCausalLM, ids: Tensor, r: Result<Tensor, ShardError>)
    requires
        call_ensures(DeepSeekForCausalLM::embed_forward, (&model, &ids), r),
    ensures
        r is Ok ==> made_of_tokens(model, ids, r->Ok_0),
        r is Err ==> r->Err_0 is Candle,
        ({
            let table = model.embed_tokens;
            let dims = tensor::tensor_dims(table);
            let none = no_token(tensor::tensor_dtype(ids));
            let n = tensor::elem_count(tensor::tensor_dims(ids));
            let here = tensor::tensor_on_cpu(table) && tensor::tensor_on_cpu(ids);
            &&& here && !numbers_tokens(tensor::tensor_dtype(ids)) ==> r is Err
            &&& all_known(model, ids) ==> r is Ok
            &&& here && numbers_tokens(tensor::tensor_dtype(ids)) && dims.len() > 0 && (forall|
                v: Seq<int>,
            | #[trigger]
                tensor::held_ints(ids, v) ==> exists|i: int|
                    0 <= i < n && #[trigger] v[i] != none && (v[i] as usize) >= dims[0]) ==> r is Err
        }),
{
    let table = model.embed_tokens;
    let dims = tensor::tensor_dims(table);
    let none = no_token(tensor::tensor_dtype(ids));
    let n = tensor::elem_count(tensor::tensor_dims(ids));
    if r is Ok {
        lemma_made_of_tokens(model, ids, r->Ok_0);
    }
    if numbers_tokens(tensor::tensor_dtype(ids)) {
        assert(tensor::index_limit(tensor::tensor_dtype(ids)) == Some(none));
        lemma_all_known(model, ids);
        if forall|v: Seq<int>| #[trigger]
            tensor::held_ints(ids, v) ==> exists|i: int|
                0 <= i < n && #[trigger] v[i] != none && (v[i] as usize) >= dims[0] {
            assert forall|v: Seq<int>| #[trigger]
                tensor::held_ints(ids, v) implies !forward::all_known(table, ids, v) by {
                let i = choose|i: int|
                    0 <= i < n && #[trigger] v[i] != none && (v[i] as usize) >= dims[0];
                assert(v[i] != none);
            }
        }
    }
}

/// In host memory, the tokens of an input are all known to a model whose table lies row by row,
/// with rows of the right length of a type that candle computes with.
pub open spec fn all_known(model: DeepSeekForCausalLM, ids: Tensor) -> bool {
    let table = model.embed_tokens;
    let dims = tensor::tensor_dims(table);
    let none = no_token(tensor::tensor_dtype(ids));
    &&& tensor::tensor_on_cpu(table) && tensor::tensor_on_cpu(ids)
    &&& numbers_tokens(tensor::tensor_dtype(ids))
    &&& dims.len() == 2 && dims[1] == model.hidden_size && tensor::by_rows(table)
    &&& tensor::computes(tensor::tensor_dtype(table))
    &&& forall|v: Seq<int>, i: int|
        #![trigger tensor::held_ints(ids, v), v[i]]
        tensor::held_ints(ids, v) && 0 <= i < tensor::elem_count(tensor::tensor_dims(ids)) ==> v[i]
            == none || (v[i] as usize) < dims[0]
}

proof fn lemma_all_known(model: DeepSeekForCausalLM, ids: Tensor)
    ensures
        all_known(model, ids) ==> !forward::embed_outcome(model, ids, None),
        tensor::tensor_on_cpu(model.embed_tokens) && tensor::tensor_on_cpu(ids) && !numbers_tokens(
            tensor::tensor_dtype(ids),
        ) ==> forall|x: Tensor| !#[trigger] forward::embed_outcome(model, ids, Some(x)),
{
    if all_known(model, ids) {
        assert(tensor::index_limit(tensor::tensor_dtype(ids)) == Some(
            no_token(tensor::tensor_dtype(ids)),
        ));
        assert forall|v: Seq<int>| #[trigger]
            tensor::held_ints(ids, v) implies forward::all_known(model.embed_tokens, ids, v) by {}
    }
}

/// Where sequences end.
pub open spec fn ends(meta: InputMetadata) -> Seq<u32> {
    if meta.seqlens is Some {
        meta.seqlens->0@
    } else {
        Seq::empty()
    }
}

/// What is next behind `idx` layers that made `xs`: the next layer on it, or behind the last one
/// the norm on the last row of each sequence.
pub open spec fn goes_on(
    model: DeepSeekForCausalLM,
    n_caches: Option<usize>,
    meta: InputMetadata,
    idx: int,
    xs: Tensor,
    next: ModelCall,
) -> bool {
    forall|n: int| #[trigger]
        depth(model, n_caches, n) ==> {
            &&& idx < n ==> next is Layer && next->idx == idx && next->Layer_xs == xs
            &&& idx >= n ==> next is Norm && last_of_each(xs, ends(meta), next->Norm_xs)
        }
}

proof fn lemma_goes_on(
    model: DeepSeekForCausalLM,
    n_caches: Option<usize>,
    meta: InputMetadata,
    idx: nat,
    xs: Tensor,
    next: ModelCall,
)
    requires
        forward::is_next(model, idx, xs, n_caches, meta, Some(next)),
    ensures
        goes_on(model, n_caches, meta, idx as int, xs, next),
{
    assert forall|n: int| #[trigger] depth(model, n_caches, n) implies {
        &&& idx < n ==> next is Layer && next->idx == idx && next->Layer_xs == xs
        &&& idx >= n ==> next is Norm && last_of_each(xs, ends(meta), next->Norm_xs)
    } by {
        assert(n == forward::layers_run(model, n_caches));
        if idx >= n {
            lemma_last_of_each(xs, forward::seqlens_of(meta), next->Norm_xs);
        }
    }
}

/// How a run starts, whichever way it is asked for: with what comes of the input, which is what the
/// model makes of tokens, or the input itself if it is embedded already.
pub proof fn law_model_start(
    model: DeepSeekForCausalLM,
    input: Tensor,
    n_caches: Option<usize>,
    meta: InputMetadata,
    embedded: bool,
    masks: Option<Tensor>,
    embeds: Option<Vec<Tensor>>,
    r: Result<ModelCall, ShardError>,
)
    requires
        ({
            ||| call_ensures(
                DeepSeekForCausalLM::forward,
                (&model, &input, n_caches, &meta, embedded),
                r,
            )
            ||| call_ensures(
                DeepSeekForCausalLM::forward_embedding,
                (&model, &input, n_caches, &meta, embedded),
                r,
            )
            ||| call_ensures(
                DeepSeekForCausalLM::forward_with_deepstack,
                (&model, &input, n_caches, &meta, embedded, &masks, &embeds),
                r,
            )
        }),
    ensures
        r is Err ==> r->Err_0 is Candle,
        r is Ok && embedded ==> goes_on(model, n_caches, meta, 0, input, r->Ok_0),
        r is Ok && !embedded ==> exists|x: Tensor| #[trigger]
            made_of_tokens(model, input, x) && goes_on(model, n_caches, meta, 0, x, r->Ok_0),
        embedded && n_caches is Some && n_caches->0 > 0 && model.layers@.len() > 0 ==> r is Ok,
        embedded && n_caches is None && ends(meta).len() == 0 ==> r is Ok,
        !embedded && all_known(model, input) && n_caches is Some && n_caches->0 > 0
            && model.layers@.len() > 0 ==> r is Ok,
        !embedded && tensor::tensor_on_cpu(model.embed_tokens) && tensor::tensor_on_cpu(input)
            && !numbers_tokens(tensor::tensor_dtype(input)) ==> r is Err,
{
    if !embedded {
        lemma_all_known(model, input);
    }
    if r is Ok {
        let next = r->Ok_0;
        if embedded {
            lemma_goes_on(model, n_caches, meta, 0, input, next);
        } else {
            let x = choose|x: Option<Tensor>| #[trigger]
                forward::embed_outcome(model, input, x) && match x {
                    Some(xs) => forward::is_next(model, 0, xs, n_caches, meta, Some(next)),
                    None => false,
                };
            lemma_made_of_tokens(model, input, x->0);
            lemma_goes_on(model, n_caches, meta, 0, x->0, next);
        }
    }
}

/// What a model does with what came out of a part: layer behind layer, the norm on the last rows,
/// and the output layer on what came out of the norm, in the type of the model. What comes out of
/// that has full precision. If weights are packed, nothing is cast around the output layer.
pub proof fn law_model_step(
    model: DeepSeekForCausalLM,
    call: ModelCall,
    output: Tensor,
    n_caches: Option<usize>,
    meta: InputMetadata,
    r: Result<ModelCall, ShardError>,
)
    requires
        call_ensures(
            DeepSeekForCausalLM::forward_next,
            (&model, call, output, n_caches, &meta),
            r,
        ),
    ensures
        r is Err ==> r->Err_0 is Candle,
        call is Layer && r is Ok ==> goes_on(
            model,
            n_caches,
            meta,
            call->idx + 1,
            output,
            r->Ok_0,
        ),
        call is Norm && r is Ok ==> r->Ok_0 is LmHead,
        call is Norm && r is Ok && model.is_qvar_builder ==> r->Ok_0->LmHead_xs == output,
        call is Norm && r is Ok && !model.is_qvar_builder ==> in_type(
            output,
            model.dtype,
            r->Ok_0->LmHead_xs,
        ),
        call is LmHead && r is Ok ==> r->Ok_0 is Done,
        call is LmHead && r is Ok && model.is_qvar_builder ==> r->Ok_0->Done_xs == output,
        call is LmHead && r is Ok && !model.is_qvar_builder ==> in_type(
            output,
            DType::F32,
            r->Ok_0->Done_xs,
        ),
        (call is Norm || call is LmHead) && model.is_qvar_builder ==> r is Ok,
        call is Norm && tensor::tensor_dtype(output) == model.dtype ==> r is Ok,
        call is LmHead && tensor::tensor_dtype(output) == DType::F32 ==> r is Ok,
        call is Norm && tensor::tensor_on_cpu(output) && tensor::computes(
            tensor::tensor_dtype(output),
        ) && tensor::computes(model.dtype) ==> r is Ok,
        call is LmHead && tensor::tensor_on_cpu(output) && tensor::computes(
            tensor::tensor_dtype(output),
        ) ==> r is Ok,
{
    if r is Ok {
        match call {
            ModelCall::Layer { idx, .. } => {
                lemma_goes_on(model, n_caches, meta, (idx + 1) as nat, output, r->Ok_0);
            },
            ModelCall::Norm { .. } => {
                if !model.is_qvar_builder {
                    lemma_in_type(output, model.dtype, r->Ok_0->LmHead_xs);
                }
            },
            ModelCall::LmHead { .. } => {
                if !model.is_qvar_builder {
                    lemma_in_type(output, DType::F32, r->Ok_0->Done_xs);
                }
            },
            _ => {},
        }
    }
}

/// Every sequence ends inside the rows of a tensor.
pub open spec fn ends_inside(xs: Tensor, ends: Seq<u32>) -> bool {
    forall|i: int| 0 <= i < ends.len() ==> #[trigger] ends[i] <= tensor::tensor_dims(xs)[0]
}

/// A run goes on behind a layer that is not the last, and behind any if there are no sequences. In
/// host memory it goes on behind the last if what came out of it lies row by row, has a type that
/// candle computes with, and has the last rows of all sequences.
pub proof fn law_model_goes_on(
    model: DeepSeekForCausalLM,
    call: ModelCall,
    output: Tensor,
    n_caches: Option<usize>,
    meta: InputMetadata,
    r: Result<ModelCall, ShardError>,
    n: int,
)
    requires
        call_ensures(
            DeepSeekForCausalLM::forward_next,
            (&model, call, output, n_caches, &meta),
            r,
        ),
        depth(model, n_caches, n),
        call is Layer,
    ensures
        call->idx + 1 < n ==> r is Ok,
        ends(meta).len() == 0 ==> r is Ok,
        tensor::tensor_on_cpu(output) && tensor::by_rows(output) && tensor::computes(
            tensor::tensor_dtype(output),
        ) && tensor::tensor_dims(output).len() > 0 && ends_inside(output, ends(meta)) ==> r is Ok,
{
    let seqlens = forward::seqlens_of(meta);
    assert(seqlens == ends(meta));
    assert(n == forward::layers_run(model, n_caches));
    if call->idx + 1 >= n && ends_inside(output, ends(meta)) {
        assert forall|i: int| 0 <= i < seqlens.len() implies #[trigger] seqlens[i]
            <= tensor::tensor_dims(output)[0] by {
            assert(ends(meta)[i] <= tensor::tensor_dims(output)[0]);
        }
        let x = match r.ok() {
            Some(ModelCall::Norm { xs: y }) => Some(y),
            _ => None,
        };
        assert(forward::pick_outcome(output, seqlens, x));
    }
}

/// In every run of a model: as many layers as there are caches for are run in turn, the first on
/// the input and each on what came out of the one before; the norm is run on the last rows of what
/// came out of the last. What the output layer is run on has the model's type and is what came out
/// of the norm in that type, unless weights are packed: then it is just that. What comes out of
/// the run is what the output layer made, with full precision unless weights are packed.
pub proof fn law_model_wiring(
    model: DeepSeekForCausalLM,
    input: Tensor,
    n_caches: Option<usize>,
    meta: InputMetadata,
    embedded: bool,
    calls: Seq<ModelCall>,
    outputs: Seq<Tensor>,
    n: int,
)
    requires
        forward::is_model_run(model, input, n_caches, meta, embedded, calls, outputs),
        depth(model, n_caches, n),
    ensures
        outputs.len() == n + 2,
        forall|i: int|
            #![trigger calls[i]]
            0 <= i < n ==> calls[i] is Layer && calls[i]->idx == i && (i > 0 ==> calls[i]->Layer_xs
                == outputs[i - 1]),
        n > 0 && embedded ==> calls[0]->Layer_xs == input,
        n > 0 && !embedded ==> made_of_tokens(model, input, calls[0]->Layer_xs),
        calls[n] is Norm,
        n > 0 ==> last_of_each(outputs[n - 1], ends(meta), calls[n]->Norm_xs),
        n == 0 && embedded ==> last_of_each(input, ends(meta), calls[n]->Norm_xs),
        n == 0 && !embedded ==> exists|x: Tensor| #[trigger]
            made_of_tokens(model, input, x) && last_of_each(x, ends(meta), calls[n]->Norm_xs),
        calls[n + 1] is LmHead,
        model.is_qvar_builder ==> calls[n + 1]->LmHead_xs == outputs[n],
        !model.is_qvar_builder ==> tensor::tensor_dtype(calls[n + 1]->LmHead_xs) == model.dtype
            && in_type(outputs[n], model.dtype, calls[n + 1]->LmHead_xs),
        calls[n + 2] is Done,
        model.is_qvar_builder ==> calls[n + 2]->Done_xs == outputs[n + 1],
        !model.is_qvar_builder ==> tensor::tensor_dtype(calls[n + 2]->Done_xs) == DType::F32
            && in_type(outputs[n + 1], DType::F32, calls[n + 2]->Done_xs),
{
    assert(n == forward::layers_run(model, n_caches));
    forward::law_model_run(model, input, n_caches, meta, embedded, calls, outputs);
    assert forall|i: int| 0 <= i < n implies (#[trigger] calls[i]) is Layer && calls[i]->idx == i
        && (i > 0 ==> calls[i]->Layer_xs == outputs[i - 1]) by {
        assert(forward::is_layer_call(calls, outputs, i));
    }
    if embedded {
        lemma_goes_on(model, n_caches, meta, 0, input, calls[0]);
    } else {
        let x = choose|x: Option<Tensor>| #[trigger]
            forward::embed_outcome(model, input, x) && match x {
                Some(xs) => forward::is_next(model, 0, xs, n_caches, meta, Some(calls[0])),
                None => false,
            };
        lemma_made_of_tokens(model, input, x->0);
        lemma_goes_on(model, n_caches, meta, 0, x->0, calls[0]);
        assert(made_of_tokens(model, input, x->0));
    }
    if n > 0 {
        let last = n - 1;
        assert(forward::is_layer_call(calls, outputs, last));
        assert(forward::model_next(
            model,
            calls[last],
            outputs[last],
            n_caches,
            meta,
            Some(calls[last + 1]),
        ));
        lemma_goes_on(model, n_caches, meta, n as nat, outputs[last], calls[n]);
    }
    assert(forward::model_next(model, calls[n], outputs[n], n_caches, meta, Some(calls[n + 1])));
    assert(forward::model_next(
        model,
        calls[n + 1],
        outputs[n + 1],
        n_caches,
        meta,
        Some(calls[n + 2]),
    ));
    if !model.is_qvar_builder {
        lemma_in_type(outputs[n], model.dtype, calls[n + 1]->LmHead_xs);
        lemma_in_type(outputs[n + 1], DType::F32, calls[n + 2]->Done_xs);
    }
}

/// A mask is laid out for the sequences of a run, in the type of the model.
pub proof fn law_mask(model: DeepSeekForCausalLM, meta: InputMetadata, r: MaskBuild)
    requires
        call_ensures(DeepSeekForCausalLM::mask_build, (&model, &meta), r),
    ensures
        r.dtype == model.dtype,
        r.seqlens@ == ends(meta),
        r.sliding_window == model.sliding_window,
        r.is_prefill <==> meta.is_prefill,
{
}

} // verus!
