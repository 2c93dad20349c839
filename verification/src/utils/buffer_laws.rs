//! What holds of the buffers that are allocated for tensors and put down in an index.

use crate::models::causal_lm;
use crate::models::causal_lm::alloc_lm_head;
use crate::utils::error::{dtype_label_of, ShardError};
use crate::utils::tensor;
use crate::utils::tensor_index;
use crate::utils::tensor_index::{Dist, TensorIndex, TensorMeta, TensorShape};
use crate::utils::weight_loader::source_dtype;
use candle_core::{DType, Device, Tensor};
use vstd::prelude::*;

verus! {

/// The text is a name of an element type in weight files. Two types have two names.
pub open spec fn names_type(s: Seq<char>, d: DType) -> bool {
    match d {
        DType::F8E4M3 => s == seq!['F', '8', '_', 'E', '4', 'M', '3'] || s == seq![
            'F',
            '8',
            'E',
            '4',
            'M',
            '3',
        ],
        DType::F8E8M0 => s == seq!['F', '8', '_', 'E', '8', 'M', '0'] || s == seq![
            'F',
            '8',
            'E',
            '8',
            'M',
            '0',
        ],
        DType::BF16 => s == seq!['B', 'F', '1', '6'],
        DType::F16 => s == seq!['F', '1', '6'],
        DType::F32 => s == seq!['F', '3', '2'],
        DType::F64 => s == seq!['F', '6', '4'],
        DType::U8 => s == seq!['U', '8'],
        DType::U32 => s == seq!['U', '3', '2'],
        DType::I64 => s == seq!['I', '6', '4'],
        _ => false,
    }
}

/// Names of types are read as these types.
pub proof fn lemma_names_type(s: Seq<char>)
    ensures
        forall|d: DType| #[trigger]
            names_type(s, d) <==> tensor_index::dtype_named(s) == Some(d),
{
    reveal_strlit("F8_E4M3");
    reveal_strlit("F8E4M3");
    reveal_strlit("BF16");
    reveal_strlit("F16");
    reveal_strlit("F32");
    reveal_strlit("F64");
    reveal_strlit("F8_E8M0");
    reveal_strlit("F8E8M0");
    reveal_strlit("U8");
    reveal_strlit("U32");
    reveal_strlit("I64");
    assert("F8_E4M3"@ =~= seq!['F', '8', '_', 'E', '4', 'M', '3']);
    assert("F8E4M3"@ =~= seq!['F', '8', 'E', '4', 'M', '3']);
    assert("F8_E8M0"@ =~= seq!['F', '8', '_', 'E', '8', 'M', '0']);
    assert("F8E8M0"@ =~= seq!['F', '8', 'E', '8', 'M', '0']);
    assert("BF16"@ =~= seq!['B', 'F', '1', '6']);
    assert("F16"@ =~= seq!['F', '1', '6']);
    assert("F32"@ =~= seq!['F', '3', '2']);
    assert("F64"@ =~= seq!['F', '6', '4']);
    assert("U8"@ =~= seq!['U', '8']);
    assert("U32"@ =~= seq!['U', '3', '2']);
    assert("I64"@ =~= seq!['I', '6', '4']);
    assert("F8_E4M3"@[4] == '4' && "F8_E8M0"@[4] == '8');
    assert("F8E4M3"@[3] == '4' && "F8E8M0"@[3] == '8');
    assert("F16"@[1] == '1' && "F32"@[1] == '3' && "F64"@[1] == '6');
    assert("F16"@[0] == 'F' && "F32"@[0] == 'F' && "F64"@[0] == 'F');
    assert("U32"@[0] == 'U' && "I64"@[0] == 'I');
    assert("U8"@.len() == 2 && "BF16"@.len() == 4);
}

/// Reading a name gives the type that it names, and nothing for other texts.
pub proof fn law_read_type(s: &str, r: Option<DType>)
    requires
        call_ensures(TensorIndex::parse_dtype, (s,), r),
    ensures
        forall|d: DType| #[trigger] names_type(s@, d) <==> r == Some(d),
{
    lemma_names_type(s@);
}

/// Writing a type gives a name of it, with an underscore where there are two. In messages there is
/// none.
pub proof fn law_written_type(d: DType, r: &'static str, label: &'static str)
    requires
        tensor_index::has_name(d),
        call_ensures(TensorIndex::dtype_to_string, (d,), r),
        call_ensures(dtype_label_of, (d,), label),
    ensures
        names_type(r@, d),
        names_type(label@, d),
        (r@.len() == 7) <==> d == DType::F8E4M3 || d == DType::F8E8M0,
        r@.len() != 7 ==> label@ == r@,
        r@.len() == 7 ==> label@.len() == 6,
{
    lemma_names_type(r@);
    lemma_names_type(label@);
    reveal_strlit("F8_E4M3");
    reveal_strlit("F8E4M3");
    reveal_strlit("BF16");
    reveal_strlit("F16");
    reveal_strlit("F32");
    reveal_strlit("F64");
    reveal_strlit("F8_E8M0");
    reveal_strlit("F8E8M0");
    reveal_strlit("U8");
    reveal_strlit("U32");
    reveal_strlit("I64");
    assert("F8E4M3"@ =~= seq!['F', '8', 'E', '4', 'M', '3']);
    assert("F8E8M0"@ =~= seq!['F', '8', 'E', '8', 'M', '0']);
}

/// The type of a tensor's buffer: the one that is wanted for it, where that is known, and else the
/// one that the file names.
pub open spec fn fits_buffer(meta: TensorMeta, d: DType) -> bool {
    let wanted = meta.dst_dtype is Some && exists|w: DType| #[trigger]
        names_type(meta.dst_dtype->0@, w);
    if wanted {
        names_type(meta.dst_dtype->0@, d)
    } else {
        names_type(meta.src_dtype@, d)
    }
}

/// The type for a buffer is found by these names.
pub proof fn lemma_fits_buffer(meta: TensorMeta)
    ensures
        forall|d: DType| #[trigger]
            fits_buffer(meta, d) <==> tensor_index::buffer_dtype(meta) == Some(d),
{
    lemma_names_type(meta.src_dtype@);
    if meta.dst_dtype is Some {
        let s = meta.dst_dtype->0@;
        lemma_names_type(s);
        if tensor_index::dtype_named(s) is Some {
            assert(names_type(s, tensor_index::dtype_named(s)->0));
        }
    }
}

/// The type for a buffer is the wanted one, if it is known, and else that of the file.
pub proof fn law_buffer_type(meta: TensorMeta, r: Option<DType>)
    requires
        call_ensures(TensorIndex::target_dtype, (&meta,), r),
    ensures
        forall|d: DType| #[trigger] fits_buffer(meta, d) <==> r == Some(d),
{
    lemma_fits_buffer(meta);
}

/// The bytes in a file have the type that the file names, if it is known, and else that of the
/// buffer.
pub proof fn law_file_type(meta: TensorMeta, buf: Tensor, r: DType)
    requires
        call_ensures(source_dtype, (&meta, &buf), r),
    ensures
        names_type(meta.src_dtype@, r) || (r == tensor::tensor_dtype(buf) && forall|d: DType|
            !(#[trigger] names_type(meta.src_dtype@, d))),
{
    lemma_names_type(meta.src_dtype@);
}

/// Nothing of an index changes but the buffers and splits of the tensors of the given names.
pub open spec fn only_changes(
    before: TensorIndex,
    after: TensorIndex,
    names: Set<Seq<char>>,
) -> bool {
    &&& after.weight_files == before.weight_files
    &&& after.file_tensors == before.file_tensors
    &&& after.max_file_size == before.max_file_size
    &&& after.tensors.order() == before.tensors.order()
    &&& forall|k: Seq<char>|
        after.tensors@.contains_key(k) <==> #[trigger] before.tensors@.contains_key(k)
    &&& forall|k: Seq<char>|
        !names.contains(k) && #[trigger] before.tensors@.contains_key(k) ==> after.tensors@[k]
            == before.tensors@[k]
    &&& forall|k: Seq<char>| #[trigger]
        before.tensors@.contains_key(k) ==> {
            let (a, b) = (before.tensors@[k], after.tensors@[k]);
            &&& b.src_dtype == a.src_dtype
            &&& b.shape == a.shape
            &&& b.data_offsets == a.data_offsets
            &&& b.dst_dtype == a.dst_dtype
        }
}

/// A tensor of an index has the given buffer and split.
pub open spec fn has_buffer(ti: TensorIndex, name: Seq<char>, t: Tensor, dist: Dist) -> bool {
    &&& ti.tensors@[name].buffer == Some(t)
    &&& ti.tensors@[name].dist == dist
}

/// A tensor of the given dimensions whose elements are all zero, in a storage of its own.
pub open spec fn all_zero(t: Tensor, dims: Seq<usize>, dtype: DType, device: Device) -> bool {
    &&& tensor::tensor_dims(t) == dims
    &&& tensor::tensor_dtype(t) == dtype
    &&& tensor::tensor_on_cpu(t) == (device is Cpu)
    &&& tensor::tensor_start(t) == 0
    &&& tensor::made_bytes(t).len() == tensor::elem_count(dims) * tensor::elem_size(dtype)
    &&& forall|i: int|
        0 <= i < tensor::made_bytes(t).len() ==> #[trigger] tensor::made_bytes(t)[i] == 0u8
}

proof fn lemma_all_zero(t: Tensor, dims: Seq<usize>, dtype: DType, device: Device)
    requires
        tensor_index::is_zeros(t, dims, dtype, device),
    ensures
        all_zero(t, dims, dtype, device),
{
}

/// Putting down a buffer changes the tensor of that name, if there is one, and of it only its
/// buffer and how it is split.
pub proof fn law_put_down(name: &str, t: Tensor, dist: Dist)
    ensures
        forall|ti: &mut TensorIndex| #[trigger]
            call_ensures(TensorIndex::register, (ti, name, t, dist), ()) ==> {
                &&& only_changes(*ti, *final(ti), set![name@])
                &&& ti.tensors@.contains_key(name@) ==> has_buffer(*final(ti), name@, t, dist)
            },
{
}

/// A weight and its scales are put down one with the other: the scales under the name of the weight
/// with an ending of their own, in full on every rank. Without scales only the weight is.
pub proof fn law_put_down_pair(name: &str, weight: Tensor, scale: Option<Tensor>, dist: Dist)
    ensures
        forall|ti: &mut TensorIndex| #[trigger]
            call_ensures(
                TensorIndex::register_weight_scale,
                (ti, name, weight, scale, dist),
                (),
            ) ==> {
                let s = name@ + ".weight_scale_inv"@;
                &&& only_changes(*ti, *final(ti), set![name@, s])
                &&& scale is None ==> only_changes(*ti, *final(ti), set![name@])
                &&& ti.tensors@.contains_key(name@) ==> has_buffer(
                    *final(ti),
                    name@,
                    weight,
                    dist,
                )
                &&& scale is Some && ti.tensors@.contains_key(s) ==> has_buffer(
                    *final(ti),
                    s,
                    scale->0,
                    Dist::Replicated,
                )
            },
{
    reveal_strlit(".weight_scale_inv");
    let s = name@ + ".weight_scale_inv"@;
    assert(s.len() > name@.len());
}

/// A tensor of an index is looked up by its name.
pub proof fn law_meta(ti: TensorIndex, name: &str, r: Option<&TensorMeta>)
    requires
        call_ensures(TensorIndex::meta, (&ti, name), r),
    ensures
        r is Some <==> ti.tensors@.contains_key(name@),
        r is Some ==> *r->0 == ti.tensors@[name@],
{
}

/// What asking for a buffer comes to, from the index before to the index after.
pub open spec fn is_alloc_zeros(
    before: TensorIndex,
    after: TensorIndex,
    name: &str,
    dims: &[usize],
    device: &Device,
    r: Result<Tensor, ShardError>,
) -> bool {
    let meta = before.tensors@[name@];
    &&& after == before
    &&& !before.tensors@.contains_key(name@) <==> (r is Err && r->Err_0 is NotFound)
    &&& r matches Err(ShardError::NotFound { name: n }) ==> n@ == name@
    &&& forall|d: DType| #[trigger]
        fits_buffer(meta, d) && before.tensors@.contains_key(name@) ==> {
            &&& r is Ok ==> all_zero(r->Ok_0, dims@, d, *device)
            &&& *device is Cpu && tensor::computes(d) ==> r is Ok
            &&& *device is Cpu && !tensor::computes(d) ==> r is Err
        }
}

/// Allocating a buffer for a tensor gives zeros in the type for its buffer, and leaves the index
/// as it is. There is none for a name that the index does not hold; in host memory there is one
/// for the types that candle computes with.
pub proof fn law_alloc_zeros(
    name: &str,
    dims: &[usize],
    device: &Device,
    r: Result<Tensor, ShardError>,
)
    ensures
        forall|ti: &mut TensorIndex| #[trigger]
            call_ensures(
                TensorIndex::alloc_zeros,
                (ti, name, dims, device),
                r,
            ) ==> is_alloc_zeros(
                *ti,
                *final(ti),
                name,
                dims,
                device,
                r,
            ),
{
    assert forall|ti: &mut TensorIndex| #[trigger]
        call_ensures(
            TensorIndex::alloc_zeros,
            (ti, name, dims, device),
            r,
        ) implies is_alloc_zeros(
        *ti,
        *final(ti),
        name,
        dims,
        device,
        r,
    ) by {
        lemma_fits_buffer(ti.tensors@[name@]);
    }
}

proof fn lemma_equal_part(n: usize, nproc: usize)
    requires
        nproc > 0,
    ensures
        (n / nproc) * nproc <= n < (n / nproc) * nproc + nproc,
{
    vstd::arithmetic::div_mod::lemma_fundamental_div_mod(n as int, nproc as int);
    vstd::arithmetic::mul::lemma_mul_is_commutative(nproc as int, (n / nproc) as int);
}

/// What asking for a rank's rows of a weight comes to, from the index before to the index after.
pub open spec fn is_alloc_column_sharded(
    before: TensorIndex,
    after: TensorIndex,
    prefix: &str,
    global_out: usize,
    global_in: usize,
    iproc: usize,
    nproc: usize,
    device: &Device,
    r: Result<Tensor, ShardError>,
) -> bool {
    let w = prefix@ + ".weight"@;
    &&& only_changes(before, after, set![w])
    &&& r is Err ==> only_changes(before, after, Set::empty())
    &&& !before.tensors@.contains_key(w) <==> (r is Err && r->Err_0 is NotFound)
    &&& r matches Err(ShardError::NotFound { name: n }) ==> n@ == w
    &&& r is Ok ==> has_buffer(after, w, r->Ok_0, Dist::ColumnSharded)
    &&& r is Ok ==> {
        let dims = tensor::tensor_dims(r->Ok_0);
        &&& dims.len() == 2
        &&& dims[1] == global_in
        &&& dims[0] * nproc <= global_out < dims[0] * nproc + nproc
    }
    &&& forall|d: DType| #[trigger]
        fits_buffer(before.tensors@[w], d) && before.tensors@.contains_key(w) ==> {
            &&& r is Ok ==> all_zero(
                r->Ok_0,
                tensor::tensor_dims(r->Ok_0),
                d,
                *device,
            )
            &&& *device is Cpu && tensor::computes(d) ==> r is Ok
            &&& *device is Cpu && !tensor::computes(d) ==> r is Err
        }
}

/// Where the rows of a weight are split, each rank has all columns and its equal part of the rows,
/// rounded down.
pub proof fn law_alloc_column_sharded(
    prefix: &str,
    global_out: usize,
    global_in: usize,
    iproc: usize,
    nproc: usize,
    device: &Device,
    r: Result<Tensor, ShardError>,
)
    requires
        nproc > 0,
    ensures
        forall|ti: &mut TensorIndex| #[trigger]
            call_ensures(
                TensorIndex::alloc_column_sharded,
                (ti, prefix, global_out, global_in, iproc, nproc, device),
                r,
            ) ==> is_alloc_column_sharded(
                *ti,
                *final(ti),
                prefix,
                global_out,
                global_in,
                iproc,
                nproc,
                device,
                r,
            ),
{
    lemma_equal_part(global_out, nproc);
    assert forall|ti: &mut TensorIndex| #[trigger]
        call_ensures(
            TensorIndex::alloc_column_sharded,
            (ti, prefix, global_out, global_in, iproc, nproc, device),
            r,
        ) implies is_alloc_column_sharded(
        *ti,
        *final(ti),
        prefix,
        global_out,
        global_in,
        iproc,
        nproc,
        device,
        r,
    ) by {
        lemma_fits_buffer(ti.tensors@[prefix@ + ".weight"@]);
    }
}

/// What asking for a rank's columns of a weight comes to, from the index before to the index after.
pub open spec fn is_alloc_row_sharded(
    before: TensorIndex,
    after: TensorIndex,
    prefix: &str,
    global_out: usize,
    global_in: usize,
    iproc: usize,
    nproc: usize,
    device: &Device,
    r: Result<Tensor, ShardError>,
) -> bool {
    let w = prefix@ + ".weight"@;
    &&& only_changes(before, after, set![w])
    &&& r is Err ==> only_changes(before, after, Set::empty())
    &&& !before.tensors@.contains_key(w) <==> (r is Err && r->Err_0 is NotFound)
    &&& r matches Err(ShardError::NotFound { name: n }) ==> n@ == w
    &&& r is Ok ==> has_buffer(after, w, r->Ok_0, Dist::RowSharded)
    &&& r is Ok ==> {
        let dims = tensor::tensor_dims(r->Ok_0);
        &&& dims.len() == 2
        &&& dims[0] == global_out
        &&& dims[1] * nproc <= global_in < dims[1] * nproc + nproc
    }
    &&& forall|d: DType| #[trigger]
        fits_buffer(before.tensors@[w], d) && before.tensors@.contains_key(w) ==> {
            &&& r is Ok ==> all_zero(
                r->Ok_0,
                tensor::tensor_dims(r->Ok_0),
                d,
                *device,
            )
            &&& *device is Cpu && tensor::computes(d) ==> r is Ok
            &&& *device is Cpu && !tensor::computes(d) ==> r is Err
        }
}

/// Where the columns of a weight are split, each rank has all rows and its equal part of the
/// columns, rounded down.
pub proof fn law_alloc_row_sharded(
    prefix: &str,
    global_out: usize,
    global_in: usize,
    iproc: usize,
    nproc: usize,
    device: &Device,
    r: Result<Tensor, ShardError>,
)
    requires
        nproc > 0,
    ensures
        forall|ti: &mut TensorIndex| #[trigger]
            call_ensures(
                TensorIndex::alloc_row_sharded,
                (ti, prefix, global_out, global_in, iproc, nproc, device),
                r,
            ) ==> is_alloc_row_sharded(
                *ti,
                *final(ti),
                prefix,
                global_out,
                global_in,
                iproc,
                nproc,
                device,
                r,
            ),
{
    lemma_equal_part(global_in, nproc);
    assert forall|ti: &mut TensorIndex| #[trigger]
        call_ensures(
            TensorIndex::alloc_row_sharded,
            (ti, prefix, global_out, global_in, iproc, nproc, device),
            r,
        ) implies is_alloc_row_sharded(
        *ti,
        *final(ti),
        prefix,
        global_out,
        global_in,
        iproc,
        nproc,
        device,
        r,
    ) by {
        lemma_fits_buffer(ti.tensors@[prefix@ + ".weight"@]);
    }
}

/// What asking for a whole linear layer comes to, from the index before to the index after.
pub open spec fn is_alloc_linear(
    before: TensorIndex,
    after: TensorIndex,
    prefix: &str,
    out_dim: usize,
    in_dim: usize,
    has_bias: bool,
    device: &Device,
    r: Result<(Tensor, Option<Tensor>), ShardError>,
) -> bool {
    let (w, b) = (prefix@ + ".weight"@, prefix@ + ".bias"@);
    &&& only_changes(before, after, set![w, b])
    &&& !before.tensors@.contains_key(w) <==> (r is Err && r->Err_0 is NotFound)
    &&& r matches Err(ShardError::NotFound { name: n }) ==> n@ == w && only_changes(
        before,
        after,
        Set::empty(),
    )
    &&& r is Err ==> only_changes(before, after, set![w])
    &&& r matches Ok((weight, bias)) ==> {
        &&& has_buffer(after, w, weight, Dist::Replicated)
        &&& tensor::tensor_dims(weight) == seq![out_dim, in_dim]
        &&& bias is Some <==> has_bias && before.tensors@.contains_key(b)
        &&& bias is None ==> only_changes(before, after, set![w])
        &&& bias matches Some(t) ==> has_buffer(after, b, t, Dist::Replicated)
            && tensor::tensor_dims(t) == seq![out_dim]
        &&& forall|d: DType| #[trigger]
            fits_buffer(before.tensors@[w], d) ==> all_zero(
                weight,
                seq![out_dim, in_dim],
                d,
                *device,
            )
        &&& forall|d: DType| #[trigger]
            fits_buffer(before.tensors@[b], d) && bias is Some ==> all_zero(
                bias->0,
                seq![out_dim],
                d,
                *device,
            )
    }
    &&& forall|d: DType, e: DType|
        #![trigger fits_buffer(before.tensors@[w], d), fits_buffer(before.tensors@[b], e)]
        *device is Cpu && before.tensors@.contains_key(w) && fits_buffer(before.tensors@[w], d)
            && tensor::computes(d) && (has_bias && before.tensors@.contains_key(b)
            ==> fits_buffer(before.tensors@[b], e) && tensor::computes(e)) ==> r is Ok
}

/// A linear layer on every rank in full: its weight, and a bias where one is wanted and the index
/// holds it, both in full on every rank.
pub proof fn law_alloc_linear(
    prefix: &str,
    out_dim: usize,
    in_dim: usize,
    has_bias: bool,
    device: &Device,
    r: Result<(Tensor, Option<Tensor>), ShardError>,
)
    ensures
        forall|ti: &mut TensorIndex| #[trigger]
            call_ensures(
                TensorIndex::alloc_replicated_linear,
                (ti, prefix, out_dim, in_dim, has_bias, device),
                r,
            ) ==> is_alloc_linear(
                *ti,
                *final(ti),
                prefix,
                out_dim,
                in_dim,
                has_bias,
                device,
                r,
            ),
{
    reveal_strlit(".weight");
    reveal_strlit(".bias");
    assert((prefix@ + ".weight"@).len() != (prefix@ + ".bias"@).len());
    assert forall|ti: &mut TensorIndex| #[trigger]
        call_ensures(
            TensorIndex::alloc_replicated_linear,
            (ti, prefix, out_dim, in_dim, has_bias, device),
            r,
        ) implies is_alloc_linear(
        *ti,
        *final(ti),
        prefix,
        out_dim,
        in_dim,
        has_bias,
        device,
        r,
    ) by {
        lemma_fits_buffer(ti.tensors@[prefix@ + ".weight"@]);
        lemma_fits_buffer(ti.tensors@[prefix@ + ".bias"@]);
    }
}

/// `n` blocks of `b` cover `a`, and no fewer do.
pub open spec fn covers(a: usize, b: usize, n: usize) -> bool {
    &&& a <= n * b
    &&& forall|m: int| 0 <= m < n ==> #[trigger] (m * b) < a
}

/// The number of blocks is the least that covers a dimension: all but the last are full, and where
/// blocks divide the dimension, all are.
pub proof fn law_blocks(a: usize, b: usize)
    requires
        b > 0,
        a + b <= usize::MAX,
    ensures
        covers(a, b, tensor_index::blocks(a, b)),
        a == 0 ==> tensor_index::blocks(a, b) == 0,
        a > 0 ==> (tensor_index::blocks(a, b) - 1) * b < a,
        a % b == 0 ==> tensor_index::blocks(a, b) * b == a,
{
    let x = a + b - 1;
    let n = x / b as int;
    vstd::arithmetic::div_mod::lemma_fundamental_div_mod(x, b as int);
    let m = x % b as int;
    assert(n * b == x - m) by (nonlinear_arith)
        requires
            x == b * n + m,
    ;
    assert(0 <= n <= x) by (nonlinear_arith)
        requires
            n * b == x - m,
            0 <= m < b,
            x >= 0,
            b > 0,
    ;
    assert(tensor_index::blocks(a, b) == n);
    assert((n - 1) * b == n * b - b) by (nonlinear_arith);
    assert forall|k: int| 0 <= k < n implies #[trigger] (k * b) < a by {
        assert(k * b <= (n - 1) * b) by (nonlinear_arith)
            requires
                k <= n - 1,
                b > 0,
        ;
    }
    if a == 0 {
        assert(n == 0) by (nonlinear_arith)
            requires
                n * b < b,
                n >= 0,
                b > 0,
        ;
    }
    if a % b == 0 {
        let q = a as int / b as int;
        vstd::arithmetic::div_mod::lemma_fundamental_div_mod(a as int, b as int);
        assert(n * b == a) by (nonlinear_arith)
            requires
                a == b * q,
                a <= n * b,
                (n - 1) * b < a,
                b > 0,
        ;
    }
}

/// What asking for a weight and its scales comes to, from the index before to the index after.
pub open spec fn is_alloc_weight_scale(
    before: TensorIndex,
    after: TensorIndex,
    name: &str,
    local: &[usize],
    block: &[usize],
    dist: Dist,
    device: &Device,
    r: Result<(Tensor, Option<Tensor>), ShardError>,
) -> bool {
    let (w, s) = (name@ + ".weight"@, name@ + ".weight_scale_inv"@);
    &&& only_changes(before, after, set![w, s])
    &&& !before.tensors@.contains_key(w) <==> (r is Err && r->Err_0 is NotFound)
    &&& r matches Err(ShardError::NotFound { name: n }) ==> n@ == w && only_changes(
        before,
        after,
        Set::empty(),
    )
    &&& r is Err ==> only_changes(before, after, set![w])
    &&& forall|d: DType| #[trigger]
        fits_buffer(before.tensors@[w], d) && before.tensors@.contains_key(w) && *device is Cpu ==> (
        r is Ok <==> tensor::computes(d))
    &&& r matches Ok((weight, scale)) ==> {
        &&& has_buffer(after, w, weight, dist)
        &&& forall|d: DType| #[trigger]
            fits_buffer(before.tensors@[w], d) ==> all_zero(weight, local@, d, *device)
        &&& scale is Some <==> before.tensors@.contains_key(s)
        &&& scale is None ==> only_changes(before, after, set![w])
        &&& scale matches Some(t) ==> {
            let dims = tensor::tensor_dims(t);
            &&& has_buffer(after, s, t, dist)
            &&& all_zero(t, dims, DType::F32, *device)
            &&& dist == Dist::Replicated ==> match before.tensors@[s].shape {
                TensorShape::D2(rows, cols) => dims == seq![rows, cols],
                TensorShape::D1(_) => dims == local@,
            }
            &&& dist != Dist::Replicated && block@.len() == 2 && local@.len() >= 2 && block@[0] > 0
                && block@[1] > 0 && local@[0] + block@[0] <= usize::MAX && local@[1] + block@[1]
                <= usize::MAX ==> dims.len() == 2 && covers(local@[0], block@[0], dims[0])
                && covers(local@[1], block@[1], dims[1])
        }
    }
}

/// A weight and, where the index holds them, its scales. On every rank in full, the scales are as
/// large as in the file; for a part of the weight there is one for each block that it takes to
/// cover the part, in either dimension.
pub proof fn law_alloc_weight_scale(
    name: &str,
    local: &[usize],
    block: &[usize],
    dist: Dist,
    device: &Device,
    r: Result<(Tensor, Option<Tensor>), ShardError>,
)
    ensures
        forall|ti: &mut TensorIndex| #[trigger]
            call_ensures(
                TensorIndex::alloc_weight_scale,
                (ti, name, local, block, dist, device),
                r,
            ) ==> is_alloc_weight_scale(
                *ti,
                *final(ti),
                name,
                local,
                block,
                dist,
                device,
                r,
            ),
{
    reveal_strlit(".weight");
    reveal_strlit(".weight_scale_inv");
    assert((name@ + ".weight"@).len() != (name@ + ".weight_scale_inv"@).len());
    if block@.len() == 2 && local@.len() >= 2 && block@[0] > 0 && block@[1] > 0 && local@[0]
        + block@[0] <= usize::MAX && local@[1] + block@[1] <= usize::MAX {
        law_blocks(local@[0], block@[0]);
        law_blocks(local@[1], block@[1]);
    }
    assert forall|ti: &mut TensorIndex| #[trigger]
        call_ensures(
            TensorIndex::alloc_weight_scale,
            (ti, name, local, block, dist, device),
            r,
        ) implies is_alloc_weight_scale(
        *ti,
        *final(ti),
        name,
        local,
        block,
        dist,
        device,
        r,
    ) by {
        lemma_fits_buffer(ti.tensors@[name@ + ".weight"@]);
    }
}

/// What asking for the weights of the output layer comes to, from the index before to the index
/// after.
pub open spec fn is_alloc_lm_head(
    before: TensorIndex,
    after: TensorIndex,
    vocab_size: usize,
    hidden_size: usize,
    nproc: usize,
    dtype: DType,
    device: &Device,
    r: Result<Tensor, ShardError>,
) -> bool {
    let w = "lm_head.weight"@;
    let meta = before.tensors@[w];
    let known = exists|d: DType| #[trigger] names_type(meta.src_dtype@, d);
    &&& only_changes(before, after, set![w])
    &&& r is Err ==> only_changes(before, after, Set::empty())
    &&& !before.tensors@.contains_key(w) <==> (r is Err && r->Err_0 is LmHeadNotFound)
    &&& r matches Ok(t) ==> {
        let dims = tensor::tensor_dims(t);
        &&& has_buffer(after, w, t, Dist::VocabParallel)
        &&& dims.len() == 2
        &&& dims[1] == hidden_size
        &&& dims[0] == causal_lm::local_vocab(vocab_size as int, nproc as int) as usize
        &&& all_zero(t, dims, tensor::tensor_dtype(t), *device)
        &&& known ==> names_type(meta.src_dtype@, tensor::tensor_dtype(t))
        &&& !known ==> tensor::tensor_dtype(t) == dtype
    }
    &&& *device is Cpu && before.tensors@.contains_key(w) && !known ==> (r is Ok <==> tensor::computes(
        dtype,
    ))
    &&& forall|d: DType| #[trigger]
        names_type(meta.src_dtype@, d) && *device is Cpu && before.tensors@.contains_key(w) ==> (
        r is Ok <==> tensor::computes(d))
}

/// The weights of the output layer are split over the vocabulary: each rank has room for its part
/// of the tokens, in the type that the file names, if it is known, and else in that of the model.
pub proof fn law_alloc_lm_head(
    vocab_size: usize,
    hidden_size: usize,
    nproc: usize,
    dtype: DType,
    device: &Device,
    r: Result<Tensor, ShardError>,
)
    ensures
        forall|ti: &mut TensorIndex| #[trigger]
            call_ensures(
                alloc_lm_head,
                (ti, vocab_size, hidden_size, nproc, dtype, device),
                r,
            ) ==> is_alloc_lm_head(
                *ti,
                *final(ti),
                vocab_size,
                hidden_size,
                nproc,
                dtype,
                device,
                r,
            ),
{
    assert forall|ti: &mut TensorIndex| #[trigger]
        call_ensures(
            alloc_lm_head,
            (ti, vocab_size, hidden_size, nproc, dtype, device),
            r,
        ) implies is_alloc_lm_head(
        *ti,
        *final(ti),
        vocab_size,
        hidden_size,
        nproc,
        dtype,
        device,
        r,
    ) by {
        let s = ti.tensors@["lm_head.weight"@].src_dtype@;
        lemma_names_type(s);
        if tensor_index::dtype_named(s) is Some {
            assert(names_type(s, tensor_index::dtype_named(s)->0));
        }
    }
}

/// Types that weight files cannot name are told by their own names in messages.
pub proof fn law_label(d: DType, label: &'static str)
    requires
        !tensor_index::has_name(d),
        call_ensures(dtype_label_of, (d,), label),
    ensures
        d == DType::I16 ==> label@ == seq!['I', '1', '6'],
        d == DType::I32 ==> label@ == seq!['I', '3', '2'],
        d == DType::F4 ==> label@ == seq!['F', '4'],
        d == DType::F6E2M3 ==> label@ == seq!['F', '6', 'E', '2', 'M', '3'],
        d == DType::F6E3M2 ==> label@ == seq!['F', '6', 'E', '3', 'M', '2'],
{
    reveal_strlit("I16");
    reveal_strlit("I32");
    reveal_strlit("F4");
    reveal_strlit("F6E2M3");
    reveal_strlit("F6E3M2");
    assert("I16"@ =~= seq!['I', '1', '6']);
    assert("I32"@ =~= seq!['I', '3', '2']);
    assert("F4"@ =~= seq!['F', '4']);
    assert("F6E2M3"@ =~= seq!['F', '6', 'E', '2', 'M', '3']);
    assert("F6E3M2"@ =~= seq!['F', '6', 'E', '3', 'M', '2']);
}

/// A copy of what is known of a tensor is the same in everything.
pub proof fn law_copied_meta(a: TensorMeta, b: TensorMeta)
    requires
        call_ensures(TensorMeta::clone, (&a,), b),
    ensures
        b.src_dtype == a.src_dtype,
        b.shape == a.shape,
        b.data_offsets == a.data_offsets,
        b.dist == a.dist,
        b.buffer == a.buffer,
        b.dst_dtype == a.dst_dtype,
{
}

} // verus!
