//! Weights whose element type in the file is not that of the buffer: they are cast as a whole,
//! and each rank keeps its part.

use crate::utils::tensor;
use crate::utils::tensor::Sealed;
use crate::utils::tensor_index::{Dist, TensorShape};
use crate::utils::transfer;
use candle_core::{DType, Device, Tensor};
use vstd::prelude::*;

verus! {

/// The dimensions of the whole tensor, as far as a buffer and the file tell.
pub open spec fn global_dims(shape: TensorShape, dims: Seq<usize>) -> Seq<usize> {
    match shape {
        TensorShape::D2(r, c) => seq![r, c],
        TensorShape::D1(_) => dims,
    }
}

/// What a rank is to hold along the axis that is split.
pub open spec fn local_len(dims: Seq<usize>, axis: int) -> usize {
    if axis == 0 {
        dims[0]
    } else if dims.len() > 1 {
        dims[1]
    } else {
        1
    }
}

/// The axis along which a tensor is split over the ranks.
pub open spec fn split_axis(dist: Dist) -> Option<int> {
    match dist {
        Dist::ColumnSharded | Dist::VocabParallel => Some(0),
        Dist::RowSharded => Some(1),
        Dist::Replicated => None,
    }
}

/// Where a rank's part of the whole starts along the axis that is split.
pub open spec fn part_start(
    dist: Dist,
    dims: Seq<usize>,
    whole: Seq<usize>,
    iproc: nat,
    nproc: nat,
) -> nat {
    let axis = split_axis(dist)->0;
    transfer::first_of(dist, local_len(dims, axis) as nat, whole[axis] as nat, iproc, nproc)
}

/// How much of the whole is left for a rank that is to hold `local`.
pub open spec fn part_len(local: nat, whole: nat, start: nat) -> nat {
    if local <= whole - start {
        local
    } else {
        (whole - start) as nat
    }
}

/// The dimensions of zeros that fill a buffer up along the axis that is split.
pub open spec fn fill_dims(dims: Seq<usize>, axis: int, n: usize) -> Seq<usize> {
    if axis == 0 {
        seq![n, dims[1]]
    } else {
        seq![dims[0], n]
    }
}

/// A part that starts at `start` can be taken: it starts inside, and what has to be filled up can
/// be counted.
pub open spec fn part_defined(
    dims: Seq<usize>,
    whole: Seq<usize>,
    axis: int,
    start: nat,
    size: nat,
) -> bool {
    let local = local_len(dims, axis);
    let n = part_len(local as nat, whole[axis] as nat, start);
    &&& dims.len() > 0
    &&& axis < whole.len()
    &&& start <= whole[axis]
    &&& n == 0 ==> {
        &&& axis == 0 ==> dims.len() > 1
        &&& tensor::countable(fill_dims(dims, axis, local), size)
    }
    &&& 0 < n < local ==> {
        &&& axis == 0 ==> dims.len() > 1
        &&& tensor::countable(fill_dims(dims, axis, (local - n) as usize), size)
        &&& tensor::countable(whole.update(axis, local), size)
    }
}

/// The part of the elements of the whole tensor that starts at `start`, filled up with zeros.
pub open spec fn part_bytes(
    full: Seq<u8>,
    dims: Seq<usize>,
    whole: Seq<usize>,
    axis: int,
    start: nat,
    size: nat,
) -> Seq<u8> {
    let local = local_len(dims, axis);
    let n = part_len(local as nat, whole[axis] as nat, start);
    let step = tensor::step_bytes(whole, size, axis);
    let outer = tensor::elem_count(whole.take(axis));
    let kept = tensor::narrow_bytes(
        full,
        outer,
        (whole[axis] * step) as nat,
        start * step,
        n * step,
    );
    if n == 0 {
        tensor::zero_bytes(tensor::elem_count(fill_dims(dims, axis, local)) * size)
    } else if n < local {
        let rest = (local - n) as usize;
        tensor::cat_bytes(
            kept,
            n * step,
            tensor::zero_bytes(tensor::elem_count(fill_dims(dims, axis, rest)) * size),
            (rest * step) as nat,
            outer,
        )
    } else {
        kept
    }
}

/// The dimensions of a part.
pub open spec fn part_dims(
    dims: Seq<usize>,
    whole: Seq<usize>,
    axis: int,
    start: nat,
) -> Seq<usize> {
    let local = local_len(dims, axis);
    if part_len(local as nat, whole[axis] as nat, start) == 0 {
        fill_dims(dims, axis, local)
    } else {
        whole.update(axis, local)
    }
}

/// Zeros to fill a buffer up with go with the rest: the other dimension is that of the whole.
pub open spec fn part_matches(
    dims: Seq<usize>,
    whole: Seq<usize>,
    axis: int,
    start: nat,
) -> bool {
    let local = local_len(dims, axis);
    0 < part_len(local as nat, whole[axis] as nat, start) < local ==> {
        &&& whole.len() == 2
        &&& whole[1 - axis] == fill_dims(dims, axis, local)[1 - axis]
    }
}

fn zeros_to_fill(dims: &[usize], axis: usize, n: usize, dtype: DType, device: &Device) -> (r: Result<
    Sealed,
    candle_core::Error,
>)
    requires
        axis <= 1,
        dims@.len() > 0,
        axis == 0 ==> dims@.len() > 1,
        tensor::countable(fill_dims(dims@, axis as int, n), tensor::elem_size(dtype)),
    ensures
        *device is Cpu ==> (r is Ok <==> tensor::computes(dtype)),
        r matches Ok(t) ==> {
            let shape = fill_dims(dims@, axis as int, n);
            &&& tensor::is_fresh(t@, shape, dtype, *device is Cpu)
            &&& tensor::made_bytes(t@) == tensor::zero_bytes(
                tensor::elem_count(shape) * tensor::elem_size(dtype),
            )
        },
{
    let shape: [usize; 2] = if axis == 0 {
        [n, dims[1]]
    } else {
        [dims[0], n]
    };
    assert(shape@ =~= fill_dims(dims@, axis as int, n));
    tensor::zeros(shape.as_slice(), dtype, device)
}

/// A part that was cut out of a tensor with a storage of its own can be joined with zeros along
/// the same axis.
proof fn lemma_can_join(
    full: Tensor,
    slice: Tensor,
    padding: Tensor,
    axis: int,
    start: usize,
    n: usize,
    pad_dims: Seq<usize>,
)
    requires
        0 <= axis <= 1,
        axis < tensor::tensor_dims(full).len(),
        tensor::is_fresh(
            full,
            tensor::tensor_dims(full),
            tensor::tensor_dtype(full),
            tensor::tensor_on_cpu(full),
        ),
        tensor::cat_fits(tensor::tensor_dims(slice), pad_dims, axis),
        tensor::tensor_dims(slice) == tensor::tensor_dims(full).update(axis, n),
        tensor::is_fresh(
            padding,
            pad_dims,
            tensor::tensor_dtype(padding),
            tensor::tensor_on_cpu(padding),
        ),
        tensor::by_rows(slice),
        tensor::tensor_start(slice) == tensor::tensor_stride(full)[axis] * start
            || tensor::tensor_start(slice) == 0,
        pad_dims.len() == 2,
        pad_dims[axis] > 0,
        n > 0,
    ensures
        tensor::readable(slice) || tensor::nothing_to_join(slice, padding, axis),
        tensor::readable(padding),
{
    let dims = tensor::tensor_dims(slice);
    let whole = tensor::tensor_dims(full);
    assert(dims.len() == 2 && whole.len() == 2);
    assert(dims[axis] == n && dims[1 - axis] == whole[1 - axis]);
    if tensor::is_empty(dims) {
        let k = choose|k: int| 0 <= k < dims.len() && #[trigger] dims[k] == 0;
        assert(k == 1 - axis);
        if axis == 0 {
            tensor::lemma_elem_count_small();
            assert(whole.skip(1) =~= seq![dims[1]]);
            assert(tensor::tensor_stride(full)[0] == 0);
            assert(0 * start == 0);
        } else {
            assert(dims.take(1)[0] == 0);
            assert(dims.skip(2).len() == 0);
        }
    }
}

/// Takes the part that starts at `start` along an axis out of the whole tensor, for a buffer of
/// the given dimensions.
#[verifier::rlimit(40)]
pub fn take_part(full: Sealed, dims: &[usize], axis: usize, start: usize, device: &Device) -> (r:
    Result<Sealed, candle_core::Error>)
    requires
        axis <= 1,
        tensor::is_fresh(
            full@,
            tensor::tensor_dims(full@),
            tensor::tensor_dtype(full@),
            *device is Cpu,
        ),
        tensor::countable(
            tensor::tensor_dims(full@),
            tensor::elem_size(tensor::tensor_dtype(full@)),
        ),
        part_defined(
            dims@,
            tensor::tensor_dims(full@),
            axis as int,
            start as nat,
            tensor::elem_size(tensor::tensor_dtype(full@)),
        ),
    ensures
        ({
            let whole = tensor::tensor_dims(full@);
            let dtype = tensor::tensor_dtype(full@);
            &&& *device is Cpu && tensor::computes(dtype) ==> (r is Ok <==> part_matches(
                dims@,
                whole,
                axis as int,
                start as nat,
            ))
            &&& r is Ok ==> part_matches(dims@, whole, axis as int, start as nat)
            &&& r matches Ok(t) ==> {
                &&& tensor::tensor_dims(t@) == part_dims(dims@, whole, axis as int, start as nat)
                &&& tensor::tensor_dtype(t@) == dtype
                &&& tensor::tensor_on_cpu(t@) == (*device is Cpu)
                &&& tensor::made_bytes(t@) == part_bytes(
                    tensor::made_bytes(full@),
                    dims@,
                    whole,
                    axis as int,
                    start as nat,
                    tensor::elem_size(dtype),
                )
            }
        }),
{
    let ghost whole_dims = tensor::tensor_dims(full@);
    let ghost size = tensor::elem_size(tensor::tensor_dtype(full@));
    let dtype = full.dtype();
    let local: usize = if axis == 0 {
        dims[0]
    } else if dims.len() > 1 {
        dims[1]
    } else {
        1
    };
    let whole: usize = full.dims()[axis];
    let n: usize = if local <= whole - start {
        local
    } else {
        whole - start
    };
    if n == 0 {
        return zeros_to_fill(dims, axis, local, dtype, device);
    }
    proof {
        tensor::lemma_stride_fits(full@, axis as int, start);
    }
    let narrowed = match tensor::narrow(full, axis, start, n) {
        Ok(t) => t,
        Err(e) => {
            return Err(e);
        },
    };
    proof {
        tensor::lemma_countable_shrink(whole_dims, size, axis as int, n);
    }
    let slice = match tensor::contiguous(narrowed) {
        Ok(t) => t,
        Err(e) => {
            return Err(e);
        },
    };
    if n < local {
        let padding = match zeros_to_fill(dims, axis, local - n, dtype, device) {
            Ok(t) => t,
            Err(e) => {
                return Err(e);
            },
        };
        proof {
            let a = whole_dims.update(axis as int, n);
            let b = fill_dims(dims@, axis as int, (local - n) as usize);
            assert(a.skip(axis + 1) =~= whole_dims.skip(axis + 1));
            assert(a.take(axis as int) =~= whole_dims.take(axis as int));
            if tensor::cat_fits(a, b, axis as int) {
                assert(tensor::cat_dims(a, b, axis as int) =~= whole_dims.update(
                    axis as int,
                    local,
                ));
                assert(b[1 - axis] == a[1 - axis]);
                assert(a[1 - axis] == whole_dims[1 - axis]);
                assert(b[1 - axis] == fill_dims(dims@, axis as int, local)[1 - axis]);
                assert(part_matches(dims@, whole_dims, axis as int, start as nat));
                lemma_can_join(full@, slice@, padding@, axis as int, start, n, b);
            }
            if part_matches(dims@, whole_dims, axis as int, start as nat) {
                assert(b =~= a.update(axis as int, b[axis as int]));
            }
        }
        tensor::cat(&slice, &padding, axis)
    } else {
        Ok(slice)
    }
}

/// Tests whether zeros to fill a buffer up with can be counted.
fn fill_is_countable(dims: &[usize], axis: usize, n: usize, size: usize) -> (r: bool)
    requires
        axis <= 1,
        dims@.len() > 0,
        axis == 0 ==> dims@.len() > 1,
    ensures
        r == tensor::countable(fill_dims(dims@, axis as int, n), size as nat),
{
    let shape: [usize; 2] = if axis == 0 {
        [n, dims[1]]
    } else {
        [dims[0], n]
    };
    assert(shape@ =~= fill_dims(dims@, axis as int, n));
    tensor::is_countable(shape.as_slice(), size)
}

/// Tests whether a part can be taken.
fn part_is_defined(dims: &[usize], whole: &[usize], axis: usize, start: usize, size: usize) -> (r:
    bool)
    requires
        axis <= 1,
    ensures
        r == part_defined(dims@, whole@, axis as int, start as nat, size as nat),
{
    if dims.len() == 0 || axis >= whole.len() || start > whole[axis] {
        return false;
    }
    let global: usize = whole[axis];
    let local: usize = if axis == 0 {
        dims[0]
    } else if dims.len() > 1 {
        dims[1]
    } else {
        1
    };
    let n: usize = if local <= global - start {
        local
    } else {
        global - start
    };
    if n == local && n > 0 {
        return true;
    }
    if axis == 0 && dims.len() < 2 {
        return false;
    }
    if n == 0 {
        return fill_is_countable(dims, axis, local, size);
    }
    let mut grown = vstd::slice::slice_to_vec(whole);
    grown.set(axis, local);
    assert(grown@ =~= whole@.update(axis as int, local));
    fill_is_countable(dims, axis, local - n, size) && tensor::is_countable(grown.as_slice(), size)
}

/// The dimensions that the bytes in a file are read with.
pub open spec fn source_dims(shape: TensorShape, dist: Dist, dims: Seq<usize>) -> Seq<usize> {
    if dist == Dist::Replicated {
        dims
    } else {
        global_dims(shape, dims)
    }
}

/// The bytes of a tensor in a file can be cast for a buffer of the given dimensions: they make
/// up whole elements, the whole can be counted in either type, and a split tensor divides evenly
/// over the ranks and a rank's part of it can be taken.
pub open spec fn conversion_defined(
    len: nat,
    from: DType,
    to: DType,
    dims: Seq<usize>,
    shape: TensorShape,
    dist: Dist,
    iproc: nat,
    nproc: nat,
) -> bool {
    let whole = source_dims(shape, dist, dims);
    &&& tensor::elem_size(from) > 0
    &&& len % tensor::elem_size(from) == 0
    &&& tensor::countable(whole, tensor::elem_size(from))
    &&& tensor::countable(whole, tensor::elem_size(to))
    &&& split_axis(dist) matches Some(axis) ==> {
        &&& dims.len() > 0
        &&& axis < whole.len()
        &&& nproc > 0
        &&& whole[axis] as nat % nproc == 0
        &&& iproc * transfer::apart(
            dist,
            local_len(dims, axis) as nat,
            whole[axis] as nat,
            nproc,
        ) <= usize::MAX
        &&& part_defined(
            dims,
            whole,
            axis,
            part_start(dist, dims, whole, iproc, nproc),
            tensor::elem_size(to),
        )
    }
}

/// What a buffer is to hold of the elements of the whole tensor.
pub open spec fn converted_bytes(
    full: Seq<u8>,
    size: nat,
    dims: Seq<usize>,
    shape: TensorShape,
    dist: Dist,
    iproc: nat,
    nproc: nat,
) -> Seq<u8> {
    let whole = global_dims(shape, dims);
    match split_axis(dist) {
        Some(axis) => part_bytes(
            full,
            dims,
            whole,
            axis,
            part_start(dist, dims, whole, iproc, nproc),
            size,
        ),
        None => full,
    }
}

/// The dimensions of what a buffer is to hold.
pub open spec fn converted_dims(
    dims: Seq<usize>,
    shape: TensorShape,
    dist: Dist,
    iproc: nat,
    nproc: nat,
) -> Seq<usize> {
    match split_axis(dist) {
        Some(axis) => {
            let whole = global_dims(shape, dims);
            part_dims(dims, whole, axis, part_start(dist, dims, whole, iproc, nproc))
        },
        None => dims,
    }
}

/// `t` holds what a buffer is to hold, after a cast of the bytes in a file.
pub open spec fn is_converted(
    t: Tensor,
    bytes: Seq<u8>,
    from: DType,
    to: DType,
    dims: Seq<usize>,
    shape: TensorShape,
    dist: Dist,
    iproc: nat,
    nproc: nat,
) -> bool {
    exists|full: Seq<u8>| #[trigger]
        tensor::is_cast(
            from,
            to,
            tensor::elem_count(source_dims(shape, dist, dims)),
            bytes,
            full,
        ) && tensor::made_bytes(t) == converted_bytes(
            full,
            tensor::elem_size(to),
            dims,
            shape,
            dist,
            iproc,
            nproc,
        )
}

/// `r` is what comes of casting the bytes in a file for a buffer: nothing, if their number does
/// not suit the dimensions or candle only stores one of the types, and else what the buffer is to
/// hold. In host memory it then comes if zeros to fill up with go with the rest.
pub open spec fn is_conversion(
    r: Option<Tensor>,
    bytes: Seq<u8>,
    from: DType,
    to: DType,
    dims: Seq<usize>,
    shape: TensorShape,
    dist: Dist,
    iproc: nat,
    nproc: nat,
    on_cpu: bool,
) -> bool {
    let whole = source_dims(shape, dist, dims);
    let fits = bytes.len() == tensor::elem_count(whole) * tensor::elem_size(from);
    &&& r is Some ==> fits && tensor::computes(from) && tensor::computes(to)
    &&& r is Some ==> (split_axis(dist) matches Some(axis) ==> part_matches(
        dims,
        whole,
        axis,
        part_start(dist, dims, whole, iproc, nproc),
    ))
    &&& on_cpu ==> (r is Some <==> {
        &&& fits
        &&& tensor::computes(from)
        &&& tensor::computes(to)
        &&& split_axis(dist) matches Some(axis) ==> part_matches(
            dims,
            whole,
            axis,
            part_start(dist, dims, whole, iproc, nproc),
        )
    })
    &&& r matches Some(t) ==> {
        &&& tensor::tensor_dtype(t) == to
        &&& tensor::tensor_on_cpu(t) == on_cpu
        &&& tensor::tensor_dims(t) == converted_dims(dims, shape, dist, iproc, nproc)
        &&& is_converted(t, bytes, from, to, dims, shape, dist, iproc, nproc)
    }
}

/// Casts the bytes that a file holds for a tensor and takes what a buffer of the given
/// dimensions is to hold.
pub fn convert(
    full_bytes: &[u8],
    from: DType,
    to: DType,
    dims: &[usize],
    shape: TensorShape,
    dist: Dist,
    iproc: usize,
    nproc: usize,
    device: &Device,
) -> (r: Result<Tensor, candle_core::Error>)
    requires
        from != to,
        conversion_defined(
            full_bytes@.len(),
            from,
            to,
            dims@,
            shape,
            dist,
            iproc as nat,
            nproc as nat,
        ),
    ensures
        is_conversion(
            r.ok(),
            full_bytes@,
            from,
            to,
            dims@,
            shape,
            dist,
            iproc as nat,
            nproc as nat,
            *device is Cpu,
        ),
{
    let pair: [usize; 2];
    let whole: &[usize] = match (dist, shape) {
        (Dist::Replicated, _) => dims,
        (_, TensorShape::D2(r, c)) => {
            pair = [r, c];
            pair.as_slice()
        },
        (_, TensorShape::D1(_)) => dims,
    };
    assert(whole@ =~= source_dims(shape, dist, dims@));
    let full = match tensor::cast_bytes(full_bytes, from, to, whole, device) {
        Ok(t) => t,
        Err(e) => {
            return Err(e);
        },
    };
    assert(tensor::is_cast(
        from,
        to,
        tensor::elem_count(whole@),
        full_bytes@,
        tensor::made_bytes(full@),
    ));
    let taken = match dist {
        Dist::Replicated => Ok(full),
        Dist::ColumnSharded | Dist::VocabParallel => {
            let (start, _) = transfer::pieces_of(dist, dims[0], whole[0], iproc, nproc);
            take_part(full, dims, 0, start, device)
        },
        Dist::RowSharded => {
            let local: usize = if dims.len() > 1 {
                dims[1]
            } else {
                1
            };
            let (start, _) = transfer::pieces_of(dist, local, whole[1], iproc, nproc);
            take_part(full, dims, 1, start, device)
        },
    };
    match taken {
        Ok(t) => Ok(t.into_tensor()),
        Err(e) => Err(e),
    }
}

/// Tests whether the bytes of a tensor in a file can be cast for a buffer.
pub fn conversion_is_defined(
    len: usize,
    from: DType,
    to: DType,
    dims: &[usize],
    shape: TensorShape,
    dist: Dist,
    iproc: usize,
    nproc: usize,
) -> (r: bool)
    ensures
        r == conversion_defined(
            len as nat,
            from,
            to,
            dims@,
            shape,
            dist,
            iproc as nat,
            nproc as nat,
        ),
{
    let pair: [usize; 2];
    let whole: &[usize] = match (dist, shape) {
        (Dist::Replicated, _) => dims,
        (_, TensorShape::D2(r, c)) => {
            pair = [r, c];
            pair.as_slice()
        },
        (_, TensorShape::D1(_)) => dims,
    };
    assert(whole@ =~= source_dims(shape, dist, dims@));
    let from_size: usize = from.size_in_bytes();
    let to_size: usize = to.size_in_bytes();
    if from_size == 0 || len % from_size != 0 {
        return false;
    }
    if !tensor::is_countable(whole, from_size) || !tensor::is_countable(whole, to_size) {
        return false;
    }
    let axis: usize = match dist {
        Dist::Replicated => {
            return true;
        },
        Dist::ColumnSharded | Dist::VocabParallel => 0,
        Dist::RowSharded => 1,
    };
    if dims.len() == 0 || axis >= whole.len() || nproc == 0 || whole[axis] % nproc != 0 {
        return false;
    }
    let local: usize = if axis == 0 {
        dims[0]
    } else if dims.len() > 1 {
        dims[1]
    } else {
        1
    };
    match transfer::first_piece(dist, local, whole[axis], iproc, nproc) {
        Some(start) => part_is_defined(dims, whole, axis, start, to_size),
        None => false,
    }
}

} // verus!
