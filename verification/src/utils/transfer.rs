//! Copies of weights into the buffers of a GPU: which bytes go where.

use crate::utils::error::ShardError;
use crate::utils::tensor;
use crate::utils::tensor_index::{Dist, TensorMeta, TensorShape};
use candle_core::Tensor;
use vstd::prelude::*;

verus! {

/// A copy of equally long rows from host memory to a device. Offsets in host memory count from
/// the first byte of the tensor in its file.
#[derive(Debug, Clone, Copy, PartialEq, Eq, Structural)]
pub struct RowCopy {
    pub src_offset: usize,
    /// Bytes from the start of one row in host memory to the start of the next.
    pub src_pitch: usize,
    /// Address of the first row on the device.
    pub dst: u64,
    /// Bytes from the start of one row on the device to the start of the next.
    pub dst_pitch: usize,
    pub width_bytes: usize,
    pub height: usize,
}

/// A copy of one run of bytes from host memory to a device.
#[derive(Debug, Clone, Copy, PartialEq, Eq, Structural)]
pub struct FlatCopy {
    pub src_offset: usize,
    pub dst: u64,
    pub count: usize,
    pub byte_count: usize,
}

/// A copy from host memory to a device.
#[derive(Debug, Clone, Copy, PartialEq, Eq, Structural)]
pub enum GpuCopy {
    Rows(RowCopy),
    Flat(FlatCopy),
}

/// A copy of one run of bytes from one place on a device to another.
#[derive(Debug, Clone, Copy, PartialEq, Eq, Structural)]
pub struct DeviceCopy {
    pub dst: u64,
    pub src: u64,
    pub byte_count: usize,
}

/// Where a buffer is and how its elements lie: what a copy needs to know of the destination.
pub struct Target {
    pub dims: Seq<usize>,
    pub stride: Seq<usize>,
    pub start: nat,
    pub elem: nat,
    pub base: nat,
}

/// The destination that a tensor is, when its storage starts at `base` on the device.
pub open spec fn target_of(t: Tensor, base: u64) -> Target {
    Target {
        dims: tensor::tensor_dims(t),
        stride: tensor::tensor_stride(t),
        start: tensor::tensor_start(t) as nat,
        elem: tensor::elem_size(tensor::tensor_dtype(t)),
        base: base as nat,
    }
}

/// The rows of a whole tensor.
pub open spec fn global_rows(shape: TensorShape) -> nat {
    match shape {
        TensorShape::D2(r, _) => r as nat,
        TensorShape::D1(r) => r as nat,
    }
}

/// The columns of a whole tensor.
pub open spec fn global_cols(shape: TensorShape) -> nat {
    match shape {
        TensorShape::D2(_, c) => c as nat,
        TensorShape::D1(c) => c as nat,
    }
}

/// The elements of a whole tensor whose part on each of `nproc` ranks has one dimension.
pub open spec fn global_count(shape: TensorShape, local: nat, nproc: nat) -> nat {
    match shape {
        TensorShape::D1(n) => n as nat,
        TensorShape::D2(_, _) => local * nproc,
    }
}

/// What each rank has of `whole` equal pieces.
pub open spec fn per_rank(whole: nat, nproc: nat) -> nat {
    whole / nproc
}

/// How many pieces lie between the first piece of one rank and that of the next. A tensor that is
/// split over the vocabulary may have been filled up, so that each rank has room for more than its
/// equal part, and the ranks follow each other by what they have room for; else by equal parts.
pub open spec fn apart(dist: Dist, local: nat, whole: nat, nproc: nat) -> nat {
    if dist == Dist::VocabParallel && local > per_rank(whole, nproc) {
        local
    } else {
        per_rank(whole, nproc)
    }
}

/// The first of `whole` pieces that a rank takes. Of a tensor that is split over the vocabulary
/// there may be none left.
pub open spec fn first_of(dist: Dist, local: nat, whole: nat, iproc: nat, nproc: nat) -> nat {
    let next = iproc * apart(dist, local, whole, nproc);
    if dist == Dist::VocabParallel && next > whole {
        whole
    } else {
        next
    }
}

/// How many pieces a rank takes from the first on: as many as it has room for, but of a tensor
/// that is split over the vocabulary no more than there are.
pub open spec fn taken_of(dist: Dist, local: nat, whole: nat, first: nat) -> nat {
    if dist == Dist::VocabParallel && whole - first < local {
        (whole - first) as nat
    } else {
        local
    }
}

/// Where a rank's part of a tensor of two dimensions starts in the whole: at its first row, at
/// its first column, or at the start.
pub open spec fn row_offset(
    t: Target,
    shape: TensorShape,
    dist: Dist,
    iproc: nat,
    nproc: nat,
) -> int {
    match dist {
        Dist::ColumnSharded | Dist::VocabParallel => first_of(
            dist,
            t.dims[0] as nat,
            global_rows(shape),
            iproc,
            nproc,
        ) * t.dims[1] * t.elem,
        Dist::RowSharded => (iproc * per_rank(global_cols(shape), nproc) * t.elem) as int,
        Dist::Replicated => 0,
    }
}

/// The bytes from one row of the whole tensor to the next. Only a rank that takes columns goes
/// on by more than it takes.
pub open spec fn row_pitch(t: Target, shape: TensorShape, dist: Dist) -> int {
    match dist {
        Dist::RowSharded => (global_cols(shape) * t.elem) as int,
        _ => t.dims[1] * t.elem,
    }
}

/// The rows that a rank copies.
pub open spec fn row_height(
    t: Target,
    shape: TensorShape,
    dist: Dist,
    iproc: nat,
    nproc: nat,
) -> nat {
    let whole = global_rows(shape);
    let local = t.dims[0] as nat;
    taken_of(dist, local, whole, first_of(dist, local, whole, iproc, nproc))
}

/// The copy for a buffer of two dimensions.
pub open spec fn row_copy(
    t: Target,
    shape: TensorShape,
    dist: Dist,
    iproc: nat,
    nproc: nat,
) -> RowCopy {
    RowCopy {
        src_offset: row_offset(t, shape, dist, iproc, nproc) as usize,
        src_pitch: row_pitch(t, shape, dist) as usize,
        dst: (t.base + t.start * t.elem) as u64,
        dst_pitch: (t.stride[0] * t.elem) as usize,
        width_bytes: (t.dims[1] * t.elem) as usize,
        height: row_height(t, shape, dist, iproc, nproc) as usize,
    }
}

/// Where a rank's part of a tensor of one dimension starts in the whole.
pub open spec fn flat_offset(
    t: Target,
    shape: TensorShape,
    dist: Dist,
    iproc: nat,
    nproc: nat,
) -> nat {
    if dist == Dist::Replicated {
        0
    } else {
        let local = t.dims[0] as nat;
        first_of(dist, local, global_count(shape, local, nproc), iproc, nproc) * t.elem
    }
}

/// The elements that a rank copies.
pub open spec fn flat_count(
    t: Target,
    shape: TensorShape,
    dist: Dist,
    iproc: nat,
    nproc: nat,
) -> nat {
    let local = t.dims[0] as nat;
    let whole = global_count(shape, local, nproc);
    taken_of(dist, local, whole, first_of(dist, local, whole, iproc, nproc))
}

/// The copy for a buffer of one dimension.
pub open spec fn flat_copy(
    t: Target,
    shape: TensorShape,
    dist: Dist,
    iproc: nat,
    nproc: nat,
) -> FlatCopy {
    FlatCopy {
        src_offset: flat_offset(t, shape, dist, iproc, nproc) as usize,
        dst: (t.base + t.start * t.elem) as u64,
        count: flat_count(t, shape, dist, iproc, nproc) as usize,
        byte_count: (flat_count(t, shape, dist, iproc, nproc) * t.elem) as usize,
    }
}

/// A copy can be laid out: a split tensor divides evenly over the ranks, and every product on
/// the way fits.
pub open spec fn copy_defined(
    t: Target,
    shape: TensorShape,
    dist: Dist,
    iproc: nat,
    nproc: nat,
) -> bool {
    &&& t.start * t.elem <= usize::MAX
    &&& t.base + t.start * t.elem <= u64::MAX
    &&& t.dims.len() == 2 ==> {
        &&& t.stride.len() > 0
        &&& t.stride[0] * t.elem <= usize::MAX
        &&& t.dims[1] * t.elem <= usize::MAX
        &&& match dist {
            Dist::ColumnSharded | Dist::VocabParallel => {
                let local = t.dims[0] as nat;
                let first = first_of(dist, local, global_rows(shape), iproc, nproc);
                &&& nproc > 0
                &&& global_rows(shape) % nproc == 0
                &&& iproc * apart(dist, local, global_rows(shape), nproc) <= usize::MAX
                &&& first * t.dims[1] <= usize::MAX
                &&& first * t.dims[1] * t.elem <= usize::MAX
            },
            Dist::RowSharded => {
                let each = per_rank(global_cols(shape), nproc);
                &&& nproc > 0
                &&& global_cols(shape) % nproc == 0
                &&& iproc * each <= usize::MAX
                &&& iproc * each * t.elem <= usize::MAX
                &&& global_cols(shape) * t.elem <= usize::MAX
            },
            Dist::Replicated => true,
        }
    }
    &&& t.dims.len() == 1 ==> {
        &&& t.dims[0] * t.elem <= usize::MAX
        &&& dist != Dist::Replicated ==> {
            let local = t.dims[0] as nat;
            let whole = global_count(shape, local, nproc);
            let first = first_of(dist, local, whole, iproc, nproc);
            &&& nproc > 0
            &&& whole <= usize::MAX
            &&& whole % nproc == 0
            &&& iproc * apart(dist, local, whole, nproc) <= usize::MAX
            &&& first * t.elem <= usize::MAX
        }
    }
}

/// Computes how many pieces lie between the first piece of one rank and that of the next.
fn apart_by(dist: Dist, local: usize, whole: usize, nproc: usize) -> (r: usize)
    requires
        nproc > 0,
    ensures
        r == apart(dist, local as nat, whole as nat, nproc as nat),
{
    let each: usize = whole / nproc;
    if dist == Dist::VocabParallel && local > each {
        local
    } else {
        each
    }
}

/// Computes the first of `whole` pieces that a rank takes, and how many.
pub fn pieces_of(dist: Dist, local: usize, whole: usize, iproc: usize, nproc: usize) -> (r: (
    usize,
    usize,
))
    requires
        nproc > 0,
        iproc * apart(dist, local as nat, whole as nat, nproc as nat) <= usize::MAX,
    ensures
        r.0 == first_of(dist, local as nat, whole as nat, iproc as nat, nproc as nat),
        r.1 == taken_of(dist, local as nat, whole as nat, r.0 as nat),
{
    let next: usize = iproc * apart_by(dist, local, whole, nproc);
    if dist == Dist::VocabParallel {
        let first: usize = if next <= whole {
            next
        } else {
            whole
        };
        let taken: usize = if whole - first < local {
            whole - first
        } else {
            local
        };
        (first, taken)
    } else {
        (next, local)
    }
}

/// Computes the first of `whole` pieces that a rank takes, where the products on the way fit.
pub fn first_piece(dist: Dist, local: usize, whole: usize, iproc: usize, nproc: usize) -> (r: Option<
    usize,
>)
    requires
        nproc > 0,
    ensures
        match r {
            Some(first) => {
                &&& iproc * apart(dist, local as nat, whole as nat, nproc as nat) <= usize::MAX
                &&& first == first_of(
                    dist,
                    local as nat,
                    whole as nat,
                    iproc as nat,
                    nproc as nat,
                )
            },
            None => iproc * apart(dist, local as nat, whole as nat, nproc as nat) > usize::MAX,
        },
{
    match iproc.checked_mul(apart_by(dist, local, whole, nproc)) {
        Some(next) => Some(
            if dist == Dist::VocabParallel && next > whole {
                whole
            } else {
                next
            },
        ),
        None => None,
    }
}

/// What laying out the copy into a buffer comes to, when the buffer's storage starts at `base`.
pub open spec fn is_copy(
    r: Result<GpuCopy, ShardError>,
    gpu_buf: Tensor,
    base: Option<u64>,
    shape: TensorShape,
    dist: Dist,
    iproc: nat,
    nproc: nat,
) -> bool {
    match base {
        None => r matches Err(ShardError::BufferNotOnCuda),
        Some(at) => {
            let t = target_of(gpu_buf, at);
            match r {
                Ok(GpuCopy::Rows(c)) => {
                    &&& t.dims.len() == 2
                    &&& c == row_copy(t, shape, dist, iproc, nproc)
                },
                Ok(GpuCopy::Flat(c)) => {
                    &&& t.dims.len() == 1
                    &&& c == flat_copy(t, shape, dist, iproc, nproc)
                },
                Err(ShardError::UnexpectedRank { rank }) => {
                    &&& rank == t.dims.len()
                    &&& rank != 1
                    &&& rank != 2
                },
                Err(_) => false,
            }
        },
    }
}

/// Lays out the copy of a tensor's bytes into its buffer, which has the same element type. Each
/// rank takes its part of a split tensor. `dst_base` is where the buffer's storage starts, if it
/// is on a CUDA device.
pub fn pinned_copy_to_gpu(
    gpu_buf: &Tensor,
    dst_base: Option<u64>,
    meta: &TensorMeta,
    iproc: usize,
    nproc: usize,
) -> (r: Result<GpuCopy, ShardError>)
    requires
        dst_base matches Some(base) ==> copy_defined(
            target_of(*gpu_buf, base),
            meta.shape,
            meta.dist,
            iproc as nat,
            nproc as nat,
        ),
    ensures
        is_copy(r, *gpu_buf, dst_base, meta.shape, meta.dist, iproc as nat, nproc as nat),
{
    let base: u64 = match dst_base {
        Some(base) => base,
        None => {
            return Err(ShardError::BufferNotOnCuda);
        },
    };
    let dims = gpu_buf.dims();
    let elem_size: usize = gpu_buf.dtype().size_in_bytes();
    let start: usize = tensor::start_offset(gpu_buf) * elem_size;
    let dst: u64 = base + start as u64;
    if dims.len() == 2 {
        let stride = gpu_buf.stride();
        let row: usize = dims[1] * elem_size;
        let mut height: usize = dims[0];
        let src_offset: usize = match meta.dist {
            Dist::ColumnSharded | Dist::VocabParallel => {
                let rows: usize = match meta.shape {
                    TensorShape::D2(r, _) => r,
                    TensorShape::D1(r) => r,
                };
                let (first, taken) = pieces_of(meta.dist, dims[0], rows, iproc, nproc);
                height = taken;
                first * dims[1] * elem_size
            },
            Dist::RowSharded => {
                let cols: usize = match meta.shape {
                    TensorShape::D2(_, c) => c,
                    TensorShape::D1(c) => c,
                };
                let cols_per_rank: usize = cols / nproc;
                iproc * cols_per_rank * elem_size
            },
            Dist::Replicated => 0,
        };
        let src_pitch: usize = match meta.dist {
            Dist::RowSharded => {
                let cols: usize = match meta.shape {
                    TensorShape::D2(_, c) => c,
                    TensorShape::D1(c) => c,
                };
                cols * elem_size
            },
            _ => row,
        };
        Ok(
            GpuCopy::Rows(
                RowCopy {
                    src_offset,
                    src_pitch,
                    dst,
                    dst_pitch: stride[0] * elem_size,
                    width_bytes: row,
                    height,
                },
            ),
        )
    } else if dims.len() == 1 {
        let local_count: usize = dims[0];
        let mut count: usize = local_count;
        let src_offset: usize = if meta.dist == Dist::Replicated {
            0
        } else {
            let global: usize = match meta.shape {
                TensorShape::D1(n) => n,
                TensorShape::D2(_, _) => local_count * nproc,
            };
            let (first, taken) = pieces_of(meta.dist, local_count, global, iproc, nproc);
            count = taken;
            first * elem_size
        };
        proof {
            vstd::arithmetic::mul::lemma_mul_inequality(
                count as int,
                local_count as int,
                elem_size as int,
            );
        }
        Ok(GpuCopy::Flat(FlatCopy { src_offset, dst, count, byte_count: count * elem_size }))
    } else {
        Err(ShardError::UnexpectedRank { rank: dims.len() })
    }
}

/// Tests whether a copy into a buffer can be laid out.
pub fn copy_is_defined(
    gpu_buf: &Tensor,
    dst_base: Option<u64>,
    meta: &TensorMeta,
    iproc: usize,
    nproc: usize,
) -> (r: bool)
    ensures
        r == (dst_base matches Some(base) ==> copy_defined(
            target_of(*gpu_buf, base),
            meta.shape,
            meta.dist,
            iproc as nat,
            nproc as nat,
        )),
{
    let base: u64 = match dst_base {
        Some(base) => base,
        None => {
            return true;
        },
    };
    let dims = gpu_buf.dims();
    let elem: usize = gpu_buf.dtype().size_in_bytes();
    let start: usize = match tensor::start_offset(gpu_buf).checked_mul(elem) {
        Some(v) => v,
        None => {
            return false;
        },
    };
    if start as u64 > u64::MAX - base {
        return false;
    }
    if dims.len() == 2 {
        let stride = gpu_buf.stride();
        if stride.len() == 0 || stride[0].checked_mul(elem).is_none() || dims[1].checked_mul(
            elem,
        ).is_none() {
            return false;
        }
        let (rows, cols) = match meta.shape {
            TensorShape::D2(r, c) => (r, c),
            TensorShape::D1(n) => (n, n),
        };
        match meta.dist {
            Dist::ColumnSharded | Dist::VocabParallel => {
                if nproc == 0 || rows % nproc != 0 {
                    return false;
                }
                let first: usize = match first_piece(meta.dist, dims[0], rows, iproc, nproc) {
                    Some(v) => v,
                    None => {
                        return false;
                    },
                };
                match first.checked_mul(dims[1]) {
                    Some(v) => v.checked_mul(elem).is_some(),
                    None => false,
                }
            },
            Dist::RowSharded => {
                if nproc == 0 || cols % nproc != 0 || cols.checked_mul(elem).is_none() {
                    return false;
                }
                match iproc.checked_mul(cols / nproc) {
                    Some(v) => v.checked_mul(elem).is_some(),
                    None => false,
                }
            },
            Dist::Replicated => true,
        }
    } else if dims.len() == 1 {
        if dims[0].checked_mul(elem).is_none() {
            return false;
        }
        if meta.dist == Dist::Replicated {
            return true;
        }
        if nproc == 0 {
            return false;
        }
        let whole: usize = match meta.shape {
            TensorShape::D1(n) => n,
            TensorShape::D2(_, _) => match dims[0].checked_mul(nproc) {
                Some(v) => v,
                None => {
                    return false;
                },
            },
        };
        if whole % nproc != 0 {
            return false;
        }
        match first_piece(meta.dist, dims[0], whole, iproc, nproc) {
            Some(v) => v.checked_mul(elem).is_some(),
            None => false,
        }
    } else {
        true
    }
}

/// The address on the device of a tensor's first element.
pub open spec fn device_address(t: Tensor, base: u64) -> int {
    base + tensor::tensor_start(t) * tensor::elem_size(tensor::tensor_dtype(t))
}

/// A copy between tensors on a device can be laid out: the addresses and the size fit. Where the
/// storage of one is on no CUDA device, nothing is computed from it.
pub open spec fn device_copy_defined(
    src: Tensor,
    dst: Tensor,
    src_base: Option<u64>,
    dst_base: Option<u64>,
) -> bool {
    let dims = tensor::tensor_dims(src);
    let elem = tensor::elem_size(tensor::tensor_dtype(src));
    &&& src_base matches Some(base) ==> {
        &&& tensor::tensor_start(src) * elem <= usize::MAX
        &&& device_address(src, base) <= u64::MAX
    }
    &&& src_base is Some && dst_base is Some ==> {
        &&& tensor::tensor_start(dst) * tensor::elem_size(tensor::tensor_dtype(dst)) <= usize::MAX
        &&& device_address(dst, dst_base->0) <= u64::MAX
        &&& tensor::countable(dims, 0)
        &&& tensor::elem_count(dims) * elem <= usize::MAX
    }
}

/// Lays out the copy of all the elements of one tensor on a device over the start of another.
pub fn copy_device_to_device(
    src: &Tensor,
    dst: &Tensor,
    src_base: Option<u64>,
    dst_base: Option<u64>,
) -> (r: Result<DeviceCopy, ShardError>)
    requires
        device_copy_defined(*src, *dst, src_base, dst_base),
    ensures
        match r {
            Ok(c) => {
                &&& src_base is Some
                &&& dst_base is Some
                &&& c.src == device_address(*src, src_base->0)
                &&& c.dst == device_address(*dst, dst_base->0)
                &&& c.byte_count == tensor::elem_count(tensor::tensor_dims(*src))
                    * tensor::elem_size(tensor::tensor_dtype(*src))
            },
            Err(ShardError::SourceNotOnCuda) => src_base is None,
            Err(ShardError::TargetNotOnCuda) => src_base is Some && dst_base is None,
            Err(_) => false,
        },
{
    let from: u64 = match src_base {
        Some(base) => base,
        None => {
            return Err(ShardError::SourceNotOnCuda);
        },
    };
    let src_elem: usize = src.dtype().size_in_bytes();
    let src_skip: usize = tensor::start_offset(src) * src_elem;
    let to: u64 = match dst_base {
        Some(base) => base,
        None => {
            return Err(ShardError::TargetNotOnCuda);
        },
    };
    let dst_elem: usize = dst.dtype().size_in_bytes();
    let dst_skip: usize = tensor::start_offset(dst) * dst_elem;
    Ok(
        DeviceCopy {
            dst: to + dst_skip as u64,
            src: from + src_skip as u64,
            byte_count: src.elem_count() * src_elem,
        },
    )
}

/// Tests whether a copy between tensors on a device can be laid out.
pub fn device_copy_is_defined(
    src: &Tensor,
    dst: &Tensor,
    src_base: Option<u64>,
    dst_base: Option<u64>,
) -> (r: bool)
    ensures
        r == device_copy_defined(*src, *dst, src_base, dst_base),
{
    let from: u64 = match src_base {
        Some(base) => base,
        None => {
            return true;
        },
    };
    let src_elem: usize = src.dtype().size_in_bytes();
    let src_skip: usize = match tensor::start_offset(src).checked_mul(src_elem) {
        Some(v) => v,
        None => {
            return false;
        },
    };
    if src_skip as u64 > u64::MAX - from {
        return false;
    }
    let to: u64 = match dst_base {
        Some(base) => base,
        None => {
            return true;
        },
    };
    let dst_elem: usize = dst.dtype().size_in_bytes();
    let dst_skip: usize = match tensor::start_offset(dst).checked_mul(dst_elem) {
        Some(v) => v,
        None => {
            return false;
        },
    };
    if dst_skip as u64 > u64::MAX - to || !tensor::is_countable(src.dims(), 0) {
        return false;
    }
    src.elem_count().checked_mul(src_elem).is_some()
}

/// What a copy to a device comes to, when the driver took it (`None`) or refused it with a code.
pub fn copy_outcome(copy: GpuCopy, refusal: Option<String>) -> (r: Result<(), ShardError>)
    ensures
        match (refusal, copy) {
            (None, _) => r is Ok,
            (Some(code), GpuCopy::Rows(c)) => r == Result::<(), ShardError>::Err(
                ShardError::RowCopyFailed { rows: c.height, cols: c.width_bytes, code },
            ),
            (Some(code), GpuCopy::Flat(c)) => r == Result::<(), ShardError>::Err(
                ShardError::FlatCopyFailed { count: c.count, code },
            ),
        },
{
    match refusal {
        None => Ok(()),
        Some(code) => match copy {
            GpuCopy::Rows(c) => Err(
                ShardError::RowCopyFailed { rows: c.height, cols: c.width_bytes, code },
            ),
            GpuCopy::Flat(c) => Err(ShardError::FlatCopyFailed { count: c.count, code }),
        },
    }
}

} // verus!
