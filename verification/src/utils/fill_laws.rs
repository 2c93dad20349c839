//! What every rank gets of a tensor, whether it is copied as it is or cast.

use crate::utils::convert;
use crate::utils::error::ShardError;
use crate::utils::tensor;
use crate::utils::tensor_index::{Dist, TensorMeta, TensorShape};
use crate::utils::transfer;
use crate::utils::transfer::{
    copy_device_to_device, copy_outcome, pieces_of, pinned_copy_to_gpu, DeviceCopy, GpuCopy,
};
use crate::utils::weight_loader::{try_fill_tensor, Fill};
use candle_core::{DType, Device, Tensor};
use vstd::arithmetic::div_mod::{lemma_fundamental_div_mod, lemma_fundamental_div_mod_converse};
use vstd::prelude::*;

verus! {

/// `made` holds casts of the `n` elements of `bytes`, one by one.
pub open spec fn cast_one_by_one(
    from: DType,
    to: DType,
    n: nat,
    bytes: Seq<u8>,
    made: Seq<u8>,
) -> bool {
    let (a, b) = (tensor::elem_size(from), tensor::elem_size(to));
    &&& bytes.len() == n * a
    &&& made.len() == n * b
    &&& forall|i: int|
        0 <= i < n ==> tensor::elem_cast(
            from,
            to,
            #[trigger] bytes.subrange(i * a, i * a + a),
            made.subrange(i * b, i * b + b),
        )
}

proof fn lemma_cast_one_by_one(from: DType, to: DType, n: nat, bytes: Seq<u8>, made: Seq<u8>)
    requires
        tensor::is_cast(from, to, n, bytes, made),
    ensures
        cast_one_by_one(from, to, n, bytes, made),
{
    let a = tensor::elem_size(from);
    assert forall|i: int| 0 <= i < n implies tensor::elem_cast(
        from,
        to,
        #[trigger] bytes.subrange(i * a, i * a + a),
        made.subrange(i * tensor::elem_size(to), i * tensor::elem_size(to) + tensor::elem_size(to)),
    ) by {
        assert(tensor::piece(bytes, a, i) == bytes.subrange(i * a, i * a + a));
    }
}

/// A tensor that is not split is cast whole on every rank, whatever its dimensions: every rank has
/// casts of all its elements, in their places.
pub proof fn law_replicated_is_cast_whole(
    bytes: &[u8],
    buf: Tensor,
    base: Option<u64>,
    src_dtype: DType,
    device: Device,
    iproc: usize,
    nproc: usize,
    meta: TensorMeta,
    r: Result<Fill, ShardError>,
)
    requires
        call_ensures(
            try_fill_tensor,
            (bytes, &buf, base, src_dtype, &device, iproc, nproc, &meta),
            r,
        ),
        meta.dist == Dist::Replicated,
        src_dtype != tensor::tensor_dtype(buf),
    ensures
        r matches Ok(fill) ==> (fill matches Fill::Converted(t) && {
            &&& tensor::tensor_dims(t) == tensor::tensor_dims(buf)
            &&& tensor::tensor_dtype(t) == tensor::tensor_dtype(buf)
            &&& tensor::tensor_on_cpu(t) == (device is Cpu)
            &&& cast_one_by_one(
                src_dtype,
                tensor::tensor_dtype(buf),
                tensor::elem_count(tensor::tensor_dims(buf)),
                bytes@,
                tensor::made_bytes(t),
            )
        }),
        device is Cpu ==> (r is Ok <==> tensor::computes(src_dtype) && tensor::computes(
            tensor::tensor_dtype(buf),
        ) && bytes@.len() == tensor::elem_count(tensor::tensor_dims(buf)) * tensor::elem_size(
            src_dtype,
        )),
        r is Err ==> r->Err_0 is Candle,
{
    if r is Ok {
        let t = r->Ok_0->Converted_0;
        let to = tensor::tensor_dtype(buf);
        let n = tensor::elem_count(tensor::tensor_dims(buf));
        assert(convert::is_converted(
            t,
            bytes@,
            src_dtype,
            to,
            tensor::tensor_dims(buf),
            meta.shape,
            meta.dist,
            iproc as nat,
            nproc as nat,
        ));
        lemma_cast_one_by_one(src_dtype, to, n, bytes@, tensor::made_bytes(t));
    }
}

/// Where a rank's part of `whole` pieces starts: the ranks have equal parts, one after the other.
/// Over the vocabulary, ranks that together have room for more follow each other by the room they
/// have, as far as there are pieces.
pub open spec fn starts_at(
    dist: Dist,
    local: int,
    whole: int,
    iproc: int,
    nproc: int,
    first: int,
) -> bool {
    if dist == Dist::VocabParallel && local * nproc >= whole {
        &&& iproc * local <= whole ==> first == iproc * local
        &&& iproc * local > whole ==> first == whole
    } else {
        first * nproc == iproc * whole
    }
}

proof fn lemma_starts_at(dist: Dist, local: nat, whole: nat, iproc: nat, nproc: nat)
    requires
        iproc < nproc,
        whole % nproc == 0,
    ensures
        starts_at(
            dist,
            local as int,
            whole as int,
            iproc as int,
            nproc as int,
            transfer::first_of(dist, local, whole, iproc, nproc) as int,
        ),
        transfer::first_of(dist, local, whole, iproc, nproc) <= whole,
{
    let each = whole / nproc;
    lemma_fundamental_div_mod(whole as int, nproc as int);
    assert(iproc * each * nproc == iproc * whole) by (nonlinear_arith)
        requires
            whole == nproc * each,
    ;
    assert(iproc * each <= whole) by (nonlinear_arith)
        requires
            whole == nproc * each,
            iproc < nproc,
    ;
    if local * nproc >= whole {
        assert(local >= each) by (nonlinear_arith)
            requires
                local * nproc >= whole,
                whole == nproc * each,
                nproc > 0,
        ;
    } else {
        assert(local < each) by (nonlinear_arith)
            requires
                local * nproc < whole,
                whole == nproc * each,
                nproc > 0,
        ;
    }
}

/// The pieces of a rank start where those of the ranks before it end, and it takes as many as it
/// has room for; over the vocabulary no more than there are.
pub proof fn law_pieces(
    dist: Dist,
    local: usize,
    whole: usize,
    iproc: usize,
    nproc: usize,
    r: (usize, usize),
)
    requires
        iproc < nproc,
        whole % nproc == 0,
        call_ensures(pieces_of, (dist, local, whole, iproc, nproc), r),
    ensures
        starts_at(
            dist,
            local as int,
            whole as int,
            iproc as int,
            nproc as int,
            r.0 as int,
        ),
        r.0 <= whole,
        dist != Dist::VocabParallel ==> r.1 == local,
        dist == Dist::VocabParallel ==> r.1 <= local && r.0 + r.1 <= whole && (r.1 == local || r.0
            + r.1 == whole),
{
    lemma_starts_at(dist, local as nat, whole as nat, iproc as nat, nproc as nat);
}

/// What a rank has of a whole, byte by byte: `outer` times `room` bytes, of which the first
/// `taken` are those of the whole from `skipped` on, and the rest are zero. The whole has `outer`
/// times `full` bytes.
pub open spec fn taken_and_filled_up(
    whole: Seq<u8>,
    outer: int,
    full: int,
    skipped: int,
    taken: int,
    room: int,
    part: Seq<u8>,
) -> bool {
    &&& part.len() == outer * room
    &&& forall|o: int, j: int|
        #![trigger part[o * room + j]]
        0 <= o < outer && 0 <= j < room ==> part[o * room + j] == (if j < taken {
            whole[o * full + skipped + j]
        } else {
            0u8
        })
}

proof fn lemma_part_bytes(
    full: Seq<u8>,
    dims: Seq<usize>,
    whole: Seq<usize>,
    axis: int,
    start: nat,
    size: nat,
)
    requires
        0 <= axis <= 1,
        axis < whole.len(),
        dims.len() > 0,
        axis == 0 && (convert::part_len(
            convert::local_len(dims, axis) as nat,
            whole[axis] as nat,
            start,
        ) == 0) ==> dims.len() > 1,
        start <= whole[axis],
        convert::part_matches(dims, whole, axis, start),
        convert::part_len(convert::local_len(dims, axis) as nat, whole[axis] as nat, start) > 0,
    ensures
        ({
            let local = convert::local_len(dims, axis);
            let n = convert::part_len(local as nat, whole[axis] as nat, start);
            let step = tensor::elem_count(whole.skip(axis + 1)) * size;
            taken_and_filled_up(
                full,
                tensor::elem_count(whole.take(axis)) as int,
                whole[axis] * step,
                (start * step) as int,
                (n * step) as int,
                local * step,
                convert::part_bytes(full, dims, whole, axis, start, size),
            )
        }),
{
    let local = convert::local_len(dims, axis);
    let n = convert::part_len(local as nat, whole[axis] as nat, start);
    let step = tensor::step_bytes(whole, size, axis);
    let outer = tensor::elem_count(whole.take(axis));
    let wide = (whole[axis] * step) as nat;
    let skipped = start * step;
    let kept_part = n * step;
    let kept = tensor::narrow_bytes(full, outer, wide, skipped, kept_part);
    let part = convert::part_bytes(full, dims, whole, axis, start, size);
    let room = (local * step) as nat;
    if n < local {
        let rest = (local - n) as usize;
        let more = (rest * step) as nat;
        assert(kept_part + more == room) by (nonlinear_arith)
            requires
                kept_part == n * step,
                more == rest * step,
                room == local * step,
                rest == local - n,
        ;
        let zeros = tensor::zero_bytes(
            tensor::elem_count(convert::fill_dims(dims, axis, rest)) * size,
        );
        assert(part == tensor::cat_bytes(kept, kept_part, zeros, more, outer));
        assert(zeros.len() == outer * more) by {
            tensor::lemma_elem_count_small();
            let f = convert::fill_dims(dims, axis, rest);
            assert(f =~= seq![f[0], f[1]]);
            assert(f[1 - axis] == whole[1 - axis]);
            if axis == 0 {
                assert(whole.skip(1) =~= seq![whole[1]]);
                assert(whole.take(0) =~= Seq::<usize>::empty());
                assert((rest * whole[1]) * size == 1 * (rest * (whole[1] * size)))
                    by (nonlinear_arith);
            } else {
                assert(whole.skip(2) =~= Seq::<usize>::empty());
                assert(whole.take(1) =~= seq![whole[0]]);
                assert((whole[0] * rest) * size == whole[0] * (rest * (1 * size)))
                    by (nonlinear_arith);
            }
        }
        assert forall|o: int, j: int|
            #![trigger part[o * room + j]]
            0 <= o < outer && 0 <= j < room implies part[o * room + j] == (if j < kept_part {
            full[o * wide + skipped + j]
        } else {
            0u8
        }) by {
            let i = o * room + j;
            lemma_inside(o, outer as int, j, room as int);
            lemma_fundamental_div_mod_converse(i, room as int, o, j);
            if j < kept_part {
                let k = o * kept_part + j;
                lemma_inside(o, outer as int, j, kept_part as int);
                lemma_fundamental_div_mod_converse(k, kept_part as int, o, j);
                assert(kept[k] == full[tensor::narrow_at(wide, skipped, kept_part, k)]);
            } else {
                lemma_inside(o, outer as int, j - kept_part, more as int);
            }
        }
    } else {
        assert(kept_part == room);
        assert(part == kept);
        assert forall|o: int, j: int|
            #![trigger part[o * room + j]]
            0 <= o < outer && 0 <= j < room implies part[o * room + j] == full[o * wide + skipped
            + j] by {
            let i = o * room + j;
            lemma_inside(o, outer as int, j, room as int);
            lemma_fundamental_div_mod_converse(i, room as int, o, j);
        }
    }
}

proof fn lemma_inside(o: int, outer: int, j: int, room: int)
    requires
        0 <= o < outer,
        0 <= j < room,
    ensures
        0 <= o * room + j < outer * room,
{
    assert(0 <= o * room + j < outer * room) by (nonlinear_arith)
        requires
            0 <= o < outer,
            0 <= j < room,
    ;
}

/// The dimensions of the whole of a split tensor: those in the file, where it tells two, and else
/// those of the buffer.
pub open spec fn whole_dims(meta: TensorMeta, buf: Tensor) -> Seq<usize> {
    match meta.shape {
        TensorShape::D2(r, c) => seq![r, c],
        TensorShape::D1(_) => tensor::tensor_dims(buf),
    }
}

/// What is taken out of a cast of the whole along an axis: from the rank's first piece on as many
/// as the buffer has room for, and zeros where there are no more. Where there are none, all is
/// zero.
pub open spec fn is_part_of_cast(
    meta: TensorMeta,
    buf: Tensor,
    axis: int,
    local: int,
    iproc: int,
    nproc: int,
    full: Seq<u8>,
    t: Tensor,
) -> bool {
    let part = tensor::made_bytes(t);
    let dims = tensor::tensor_dims(buf);
    let whole = whole_dims(meta, buf);
    let step = (tensor::elem_count(whole.skip(axis + 1)) * tensor::elem_size(
        tensor::tensor_dtype(buf),
    )) as int;
    let outer = if axis == 0 {
        1
    } else {
        whole[0] as int
    };
    exists|first: int, n: int| #[trigger]
        starts_at(meta.dist, local, whole[axis] as int, iproc, nproc, first) && #[trigger] takes(
            local,
            whole[axis] as int,
            first,
            n,
        ) && (n > 0 ==> taken_and_filled_up(
            full,
            outer,
            whole[axis] * step,
            first * step,
            n * step,
            local * step,
            part,
        )) && (n > 0 ==> tensor::tensor_dims(t) == whole.update(axis, local as usize)) && (n == 0
            ==> {
            &&& tensor::tensor_dims(t) == (if axis == 0 {
                seq![local as usize, dims[1]]
            } else {
                seq![dims[0], local as usize]
            })
            &&& part.len() == tensor::elem_count(tensor::tensor_dims(t)) * tensor::elem_size(
                tensor::tensor_dtype(buf),
            )
            &&& forall|i: int| 0 <= i < part.len() ==> #[trigger] part[i] == 0u8
        })
}

/// `n` is the lesser of what there is room for and of what is left.
pub open spec fn takes(local: int, whole: int, first: int, n: int) -> bool {
    n <= local && n <= whole - first && (n == local || n == whole - first)
}

/// What is cast for a rank's buffer of a split tensor, whatever its dimensions: the rank's part of
/// a cast of the whole, filled up with zeros. Rows are split, or columns.
pub proof fn law_split_is_cast_and_taken(
    bytes: &[u8],
    buf: Tensor,
    base: Option<u64>,
    src_dtype: DType,
    device: Device,
    iproc: usize,
    nproc: usize,
    meta: TensorMeta,
    r: Result<Fill, ShardError>,
)
    requires
        call_ensures(
            try_fill_tensor,
            (bytes, &buf, base, src_dtype, &device, iproc, nproc, &meta),
            r,
        ),
        convert::conversion_defined(
            bytes@.len(),
            src_dtype,
            tensor::tensor_dtype(buf),
            tensor::tensor_dims(buf),
            meta.shape,
            meta.dist,
            iproc as nat,
            nproc as nat,
        ),
        meta.dist != Dist::Replicated,
        src_dtype != tensor::tensor_dtype(buf),
        iproc < nproc,
        r is Ok,
    ensures
        r->Ok_0 is Converted,
        tensor::tensor_dtype(r->Ok_0->Converted_0) == tensor::tensor_dtype(buf),
        exists|full: Seq<u8>| #[trigger]
            cast_one_by_one(
                src_dtype,
                tensor::tensor_dtype(buf),
                tensor::elem_count(whole_dims(meta, buf)),
                bytes@,
                full,
            ) && {
                let dims = tensor::tensor_dims(buf);
                if meta.dist == Dist::RowSharded {
                    is_part_of_cast(
                        meta,
                        buf,
                        1,
                        if dims.len() > 1 {
                            dims[1] as int
                        } else {
                            1
                        },
                        iproc as int,
                        nproc as int,
                        full,
                        r->Ok_0->Converted_0,
                    )
                } else {
                    is_part_of_cast(
                        meta,
                        buf,
                        0,
                        dims[0] as int,
                        iproc as int,
                        nproc as int,
                        full,
                        r->Ok_0->Converted_0,
                    )
                }
            },
{
    let t = r->Ok_0->Converted_0;
    let to = tensor::tensor_dtype(buf);
    let size = tensor::elem_size(to);
    let dims = tensor::tensor_dims(buf);
    let whole = whole_dims(meta, buf);
    let dist = meta.dist;
    assert(convert::source_dims(meta.shape, dist, dims) =~= whole);
    let count = tensor::elem_count(whole);
    assert(convert::is_converted(
        t,
        bytes@,
        src_dtype,
        to,
        dims,
        meta.shape,
        dist,
        iproc as nat,
        nproc as nat,
    ));
    let full = choose|full: Seq<u8>| #[trigger]
        tensor::is_cast(src_dtype, to, count, bytes@, full) && tensor::made_bytes(t)
            == convert::converted_bytes(
            full,
            size,
            dims,
            meta.shape,
            dist,
            iproc as nat,
            nproc as nat,
        );
    lemma_cast_one_by_one(src_dtype, to, count, bytes@, full);
    assert(cast_one_by_one(src_dtype, to, count, bytes@, full));
    let axis = convert::split_axis(dist)->0;
    let local = convert::local_len(dims, axis);
    let first = convert::part_start(dist, dims, whole, iproc as nat, nproc as nat);
    let n = convert::part_len(local as nat, whole[axis] as nat, first);
    lemma_starts_at(dist, local as nat, whole[axis] as nat, iproc as nat, nproc as nat);
    assert(starts_at(
        dist,
        local as int,
        whole[axis] as int,
        iproc as int,
        nproc as int,
        first as int,
    ));
    assert(takes(local as int, whole[axis] as int, first as int, n as int));
    let made = tensor::made_bytes(t);
    assert(made == convert::part_bytes(full, dims, whole, axis, first, size));
    if n > 0 {
        lemma_part_bytes(full, dims, whole, axis, first, size);
        tensor::lemma_elem_count_small();
        if axis == 0 {
            assert(whole.take(0) =~= Seq::<usize>::empty());
        } else {
            assert(whole.take(1) =~= seq![whole[0]]);
        }
    }
    assert(is_part_of_cast(
        meta,
        buf,
        axis,
        local as int,
        iproc as int,
        nproc as int,
        full,
        t,
    ));
}

/// In host memory, a buffer for a rank's part can be filled by a cast exactly if the file has as
/// many bytes as the whole takes and candle computes with both types, where the dimension that is
/// not split is that of the whole.
pub proof fn law_split_cast_succeeds(
    bytes: &[u8],
    buf: Tensor,
    base: Option<u64>,
    src_dtype: DType,
    device: Device,
    iproc: usize,
    nproc: usize,
    meta: TensorMeta,
    r: Result<Fill, ShardError>,
)
    requires
        call_ensures(
            try_fill_tensor,
            (bytes, &buf, base, src_dtype, &device, iproc, nproc, &meta),
            r,
        ),
        meta.dist != Dist::Replicated,
        src_dtype != tensor::tensor_dtype(buf),
        tensor::tensor_dims(buf).len() == 2,
        whole_dims(meta, buf)[if meta.dist == Dist::RowSharded {
            0int
        } else {
            1int
        }] == tensor::tensor_dims(buf)[if meta.dist == Dist::RowSharded {
            0int
        } else {
            1int
        }],
        device is Cpu,
    ensures
        r is Ok <==> tensor::computes(src_dtype) && tensor::computes(tensor::tensor_dtype(buf))
            && bytes@.len() == tensor::elem_count(whole_dims(meta, buf)) * tensor::elem_size(
            src_dtype,
        ),
{
    assert(convert::source_dims(meta.shape, meta.dist, tensor::tensor_dims(buf)) =~= whole_dims(
        meta,
        buf,
    ));
}

/// The rows of the whole of a tensor that is copied as it is.
pub open spec fn whole_rows(shape: TensorShape) -> int {
    match shape {
        TensorShape::D1(n) => n as int,
        TensorShape::D2(r, c) => r as int,
    }
}

/// The columns of the whole.
pub open spec fn whole_cols(shape: TensorShape) -> int {
    match shape {
        TensorShape::D1(n) => n as int,
        TensorShape::D2(r, c) => c as int,
    }
}

/// The elements of the whole of a tensor whose part on each rank has one dimension.
pub open spec fn whole_count(shape: TensorShape, local: int, nproc: int) -> int {
    match shape {
        TensorShape::D1(n) => n as int,
        TensorShape::D2(_, _) => local * nproc,
    }
}

/// A copy of rows into a buffer of two dimensions fills it from its first element on, row by row.
/// It takes whole rows from the rank's first one on, or of every row the rank's columns; if the
/// tensor is not split, all from the start.
pub proof fn law_row_copy(
    buf: Tensor,
    base: u64,
    meta: TensorMeta,
    iproc: usize,
    nproc: usize,
    r: Result<GpuCopy, ShardError>,
)
    requires
        call_ensures(pinned_copy_to_gpu, (&buf, Some(base), &meta, iproc, nproc), r),
        transfer::copy_defined(
            transfer::target_of(buf, base),
            meta.shape,
            meta.dist,
            iproc as nat,
            nproc as nat,
        ),
        iproc < nproc,
        tensor::tensor_dims(buf).len() == 2,
    ensures
        r is Ok && r->Ok_0 is Rows,
        ({
            let c = r->Ok_0->Rows_0;
            let dims = tensor::tensor_dims(buf);
            let elem = tensor::elem_size(tensor::tensor_dtype(buf));
            let rows = whole_rows(meta.shape);
            &&& c.dst == base + tensor::tensor_start(buf) * elem
            &&& c.dst_pitch == tensor::tensor_stride(buf)[0] * elem
            &&& c.width_bytes == dims[1] * elem
            &&& meta.dist == Dist::Replicated ==> c.src_offset == 0 && c.src_pitch == c.width_bytes
                && c.height == dims[0]
            &&& meta.dist == Dist::RowSharded ==> {
                &&& c.src_pitch == whole_cols(meta.shape) * elem
                &&& c.src_offset * nproc == iproc * c.src_pitch
                &&& c.height == dims[0]
            }
            &&& meta.dist == Dist::ColumnSharded || meta.dist == Dist::VocabParallel ==> {
                &&& c.src_pitch == c.width_bytes
                &&& exists|first: int| #[trigger]
                    starts_at(
                        meta.dist,
                        dims[0] as int,
                        rows,
                        iproc as int,
                        nproc as int,
                        first,
                    ) && c.src_offset == first * c.width_bytes && (meta.dist == Dist::ColumnSharded
                        ==> c.height == dims[0]) && (meta.dist == Dist::VocabParallel ==> takes(
                        dims[0] as int,
                        rows,
                        first,
                        c.height as int,
                    ))
            }
        }),
{
    let t = transfer::target_of(buf, base);
    let c = r->Ok_0->Rows_0;
    let elem = t.elem;
    let (i, n) = (iproc as nat, nproc as nat);
    match meta.dist {
        Dist::RowSharded => {
            let cols = transfer::global_cols(meta.shape);
            let each = cols / n;
            lemma_fundamental_div_mod(cols as int, n as int);
            assert((i * each * elem) * n == i * (cols * elem)) by (nonlinear_arith)
                requires
                    cols == n * each,
            ;
        },
        Dist::ColumnSharded | Dist::VocabParallel => {
            let local = t.dims[0] as nat;
            let rows = transfer::global_rows(meta.shape);
            lemma_starts_at(meta.dist, local, rows, i, n);
            let first = transfer::first_of(meta.dist, local, rows, i, n) as int;
            assert(first * t.dims[1] * elem == first * (t.dims[1] * elem)) by (nonlinear_arith);
            assert(starts_at(
                meta.dist,
                local as int,
                whole_rows(meta.shape),
                iproc as int,
                nproc as int,
                first,
            ));
        },
        Dist::Replicated => {},
    }
}

/// A copy of one run into a buffer of one dimension takes the rank's elements, from its first one
/// on, or all from the start if the tensor is not split.
pub proof fn law_flat_copy(
    buf: Tensor,
    base: u64,
    meta: TensorMeta,
    iproc: usize,
    nproc: usize,
    r: Result<GpuCopy, ShardError>,
)
    requires
        call_ensures(pinned_copy_to_gpu, (&buf, Some(base), &meta, iproc, nproc), r),
        transfer::copy_defined(
            transfer::target_of(buf, base),
            meta.shape,
            meta.dist,
            iproc as nat,
            nproc as nat,
        ),
        iproc < nproc,
        tensor::tensor_dims(buf).len() == 1,
    ensures
        r is Ok && r->Ok_0 is Flat,
        ({
            let c = r->Ok_0->Flat_0;
            let local = tensor::tensor_dims(buf)[0];
            let elem = tensor::elem_size(tensor::tensor_dtype(buf));
            let whole = whole_count(meta.shape, local as int, nproc as int);
            &&& c.dst == base + tensor::tensor_start(buf) * elem
            &&& c.byte_count == c.count * elem
            &&& meta.dist == Dist::Replicated ==> c.src_offset == 0 && c.count == local
            &&& meta.dist != Dist::Replicated ==> exists|first: int| #[trigger]
                starts_at(
                    meta.dist,
                    local as int,
                    whole,
                    iproc as int,
                    nproc as int,
                    first,
                ) && c.src_offset == first * elem && (meta.dist != Dist::VocabParallel ==> c.count
                    == local) && (meta.dist == Dist::VocabParallel ==> takes(
                    local as int,
                    whole,
                    first,
                    c.count as int,
                ))
        }),
{
    let t = transfer::target_of(buf, base);
    let (i, n) = (iproc as nat, nproc as nat);
    let local = t.dims[0] as nat;
    let count = transfer::flat_count(t, meta.shape, meta.dist, i, n);
    vstd::arithmetic::mul::lemma_mul_inequality(count as int, local as int, t.elem as int);
    if meta.dist != Dist::Replicated {
        let whole = transfer::global_count(meta.shape, local, n);
        lemma_starts_at(meta.dist, local, whole, i, n);
        let first = transfer::first_of(meta.dist, local, whole, i, n) as int;
        assert(whole == whole_count(meta.shape, local as int, nproc as int));
        assert(starts_at(
            meta.dist,
            local as int,
            whole_count(meta.shape, local as int, nproc as int),
            iproc as int,
            nproc as int,
            first,
        ));
    }
}

/// A copy is laid out for buffers of one or two dimensions on a CUDA device, and for no others.
pub proof fn law_copy_refused(
    buf: Tensor,
    base: Option<u64>,
    meta: TensorMeta,
    iproc: usize,
    nproc: usize,
    r: Result<GpuCopy, ShardError>,
)
    requires
        call_ensures(pinned_copy_to_gpu, (&buf, base, &meta, iproc, nproc), r),
    ensures
        base is None <==> r is Err && r->Err_0 is BufferNotOnCuda,
        base is Some ==> {
            let rank = tensor::tensor_dims(buf).len();
            &&& rank == 1 <==> r is Ok && r->Ok_0 is Flat
            &&& rank == 2 <==> r is Ok && r->Ok_0 is Rows
            &&& r is Err ==> r->Err_0 is UnexpectedRank && r->Err_0->rank == rank
        },
{
}

/// Bytes of the buffer's own type are copied as they are: filling is then what a copy is.
pub proof fn law_same_type_is_copied(
    bytes: &[u8],
    buf: Tensor,
    base: Option<u64>,
    device: Device,
    iproc: usize,
    nproc: usize,
    meta: TensorMeta,
    r: Result<Fill, ShardError>,
    copy: Result<GpuCopy, ShardError>,
)
    requires
        call_ensures(
            try_fill_tensor,
            (bytes, &buf, base, tensor::tensor_dtype(buf), &device, iproc, nproc, &meta),
            r,
        ),
        call_ensures(pinned_copy_to_gpu, (&buf, base, &meta, iproc, nproc), copy),
    ensures
        r is Ok <==> copy is Ok,
        r is Ok ==> r->Ok_0 is Copy && r->Ok_0->Copy_0 == copy->Ok_0,
        r is Err ==> (r->Err_0 is BufferNotOnCuda <==> copy->Err_0 is BufferNotOnCuda),
{
}

/// A cast tensor is copied over the start of its buffer as a whole, if both are on a CUDA device.
pub proof fn law_device_copy(
    src: Tensor,
    dst: Tensor,
    src_base: Option<u64>,
    dst_base: Option<u64>,
    r: Result<DeviceCopy, ShardError>,
)
    requires
        call_ensures(copy_device_to_device, (&src, &dst, src_base, dst_base), r),
    ensures
        r is Ok <==> src_base is Some && dst_base is Some,
        src_base is None ==> r is Err && r->Err_0 is SourceNotOnCuda,
        src_base is Some && dst_base is None ==> r is Err && r->Err_0 is TargetNotOnCuda,
        r matches Ok(c) ==> {
            &&& c.src == src_base->0 + tensor::tensor_start(src) * tensor::elem_size(
                tensor::tensor_dtype(src),
            )
            &&& c.dst == dst_base->0 + tensor::tensor_start(dst) * tensor::elem_size(
                tensor::tensor_dtype(dst),
            )
            &&& c.byte_count == tensor::elem_count(tensor::tensor_dims(src)) * tensor::elem_size(
                tensor::tensor_dtype(src),
            )
        },
{
}

/// A copy that the driver took is done, and one that it refused fails with its code and what was to
/// be copied.
pub proof fn law_copy_outcome(copy: GpuCopy, refusal: Option<String>, r: Result<(), ShardError>)
    requires
        call_ensures(copy_outcome, (copy, refusal), r),
    ensures
        r is Ok <==> refusal is None,
        r is Err && copy is Rows ==> r->Err_0 is RowCopyFailed && r->Err_0->rows
            == copy->Rows_0.height && r->Err_0->cols == copy->Rows_0.width_bytes
            && r->Err_0->RowCopyFailed_code == refusal->0,
        r is Err && copy is Flat ==> r->Err_0 is FlatCopyFailed && r->Err_0->count
            == copy->Flat_0.count && r->Err_0->FlatCopyFailed_code == refusal->0,
{
}

} // verus!
