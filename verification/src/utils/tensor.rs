//! What the library knows of candle's tensors.
//!
//! A tensor is opaque here. Its dimensions, element type and layout never change once it is
//! made, and have names of their own. Its elements can change: whoever has a handle to a tensor
//! can write its storage, as loading weights does. So there are two ways to speak of them. What a
//! tensor held when it was made never changes, and is `made_bytes`. What it held when an
//! operation read it is only known as something that it `held` at some time.
//!
//! A [`Sealed`] tensor was made in this library and is the only handle to its storage, so that it
//! still holds what it was made with.

use candle_core::{DType, Device, Tensor};
use candle_nn::Module;
use vstd::prelude::*;

verus! {

/// An n-dimensional array of elements of one type.
#[verifier::external_type_specification]
#[verifier::external_body]
pub struct ExTensor(candle_core::Tensor);

/// A CUDA device.
#[verifier::external_type_specification]
#[verifier::external_body]
pub struct ExCudaDevice(candle_core::CudaDevice);

/// A Metal device.
#[verifier::external_type_specification]
#[verifier::external_body]
pub struct ExMetalDevice(candle_core::MetalDevice);

/// Where a tensor's storage lives. The variants are visible.
#[verifier::external_type_specification]
pub struct ExDevice(candle_core::Device);

/// Why an operation on tensors failed.
#[verifier::external_type_specification]
#[verifier::external_body]
pub struct ExError(candle_core::Error);

/// The types that elements can have. The variants are visible.
#[verifier::external_type_specification]
pub struct ExDType(candle_core::DType);

/// The dimensions of a tensor.
pub uninterp spec fn tensor_dims(t: candle_core::Tensor) -> Seq<usize>;

/// The type of a tensor's elements.
pub uninterp spec fn tensor_dtype(t: candle_core::Tensor) -> candle_core::DType;

/// Whether a tensor's storage lives in host memory.
pub uninterp spec fn tensor_on_cpu(t: candle_core::Tensor) -> bool;

/// How many elements lie between neighbours along each dimension of a tensor's storage.
pub uninterp spec fn tensor_stride(t: candle_core::Tensor) -> Seq<usize>;

/// How many elements of a tensor's storage lie before its first one.
pub uninterp spec fn tensor_start(t: candle_core::Tensor) -> usize;

/// The elements that a tensor had when it was made, in row-major order, each as the bytes that
/// memory holds for it.
pub uninterp spec fn made_bytes(t: candle_core::Tensor) -> Seq<u8>;

/// At some time the elements of a tensor were `b`, in row-major order, each as the bytes that
/// memory holds for it.
pub uninterp spec fn held(t: candle_core::Tensor, b: Seq<u8>) -> bool;

/// At some time the elements of a tensor of integers were `v`, in row-major order.
pub uninterp spec fn held_ints(t: candle_core::Tensor, v: Seq<int>) -> bool;

/// `y` is the element `x` cast from one type to another. The casts round as floating point does,
/// and what becomes of a NaN's payload is open, so this is a relation.
pub uninterp spec fn elem_cast(from: DType, to: DType, x: Seq<u8>, y: Seq<u8>) -> bool;

/// `z` is the sum of two elements of the given type. The sums round as floating point does, and
/// what becomes of a NaN's payload is open, so this is a relation.
pub uninterp spec fn elem_sum(dtype: DType, x: Seq<u8>, y: Seq<u8>, z: Seq<u8>) -> bool;

/// The bytes that one element takes; the types with less than a byte take none by this count.
pub open spec fn elem_size(d: DType) -> nat {
    match d {
        DType::U8 => 1,
        DType::U32 => 4,
        DType::I16 => 2,
        DType::I32 => 4,
        DType::I64 => 8,
        DType::BF16 => 2,
        DType::F16 => 2,
        DType::F32 => 4,
        DType::F64 => 8,
        DType::F8E4M3 => 1,
        DType::F6E2M3 => 0,
        DType::F6E3M2 => 0,
        DType::F4 => 0,
        _ => 1,
    }
}

/// The types that candle computes with in host memory; the others it only stores.
pub open spec fn computes(d: DType) -> bool {
    &&& d != DType::F6E2M3
    &&& d != DType::F6E3M2
    &&& d != DType::F4
    &&& d != DType::F8E8M0
}

/// The least and the greatest element of a type of integers; `None` for the other types.
pub open spec fn int_range(d: DType) -> Option<(int, int)> {
    match d {
        DType::U8 => Some((u8::MIN as int, u8::MAX as int)),
        DType::U32 => Some((u32::MIN as int, u32::MAX as int)),
        DType::I16 => Some((i16::MIN as int, i16::MAX as int)),
        DType::I32 => Some((i32::MIN as int, i32::MAX as int)),
        DType::I64 => Some((i64::MIN as int, i64::MAX as int)),
        _ => None,
    }
}

/// The greatest number of a type whose numbers can name rows; it names none.
pub open spec fn index_limit(d: DType) -> Option<int> {
    match d {
        DType::U8 => Some(u8::MAX as int),
        DType::U32 => Some(u32::MAX as int),
        DType::I64 => Some(i64::MAX as int),
        _ => None,
    }
}

/// The sums of the elements of two tensors fit in their type, whatever they held. Sums of
/// floating point numbers always do.
pub open spec fn sums_fit(a: Tensor, b: Tensor) -> bool {
    match int_range(tensor_dtype(a)) {
        Some((least, greatest)) => tensor_dtype(b) == tensor_dtype(a) && tensor_dims(b)
            == tensor_dims(a) ==> forall|x: Seq<int>, y: Seq<int>, i: int|
            #![trigger held_ints(a, x), held_ints(b, y), x[i]]
            held_ints(a, x) && held_ints(b, y) && 0 <= i < elem_count(tensor_dims(a)) ==> least
                <= x[i] + y[i] <= greatest,
        None => true,
    }
}

/// The most dimensions of two tensors in host memory that candle can walk together.
pub const MAX_WALK: usize = 8;

/// Two tensors in host memory whose elements would be added one by one do not have too many
/// dimensions for it. Tensors without elements, and those that do not go together, are not walked.
pub open spec fn walks_together(a: Tensor, b: Tensor) -> bool {
    tensor_dims(a) == tensor_dims(b) && tensor_dtype(a) == tensor_dtype(b) && tensor_on_cpu(a)
        && tensor_on_cpu(b) && !is_empty(tensor_dims(a)) ==> tensor_dims(a).len() <= MAX_WALK
}

/// Tests whether the elements of a type are integers.
pub fn is_int(d: DType) -> (r: bool)
    ensures
        r == int_range(d) is Some,
{
    match d {
        DType::U8 => true,
        DType::U32 => true,
        DType::I16 => true,
        DType::I32 => true,
        DType::I64 => true,
        _ => false,
    }
}

/// How many elements a tensor of the given dimensions has.
pub open spec fn elem_count(dims: Seq<usize>) -> nat
    decreases dims.len(),
{
    if dims.len() == 0 {
        1
    } else {
        elem_count(dims.drop_last()) * dims.last() as nat
    }
}

/// The dimensions can be multiplied up from either end, and elements of `size` bytes fit in
/// memory.
pub open spec fn countable(dims: Seq<usize>, size: nat) -> bool {
    &&& forall|k: int| 0 <= k <= dims.len() ==> elem_count(#[trigger] dims.take(k)) <= usize::MAX
    &&& forall|k: int| 0 <= k <= dims.len() ==> elem_count(#[trigger] dims.skip(k)) <= usize::MAX
    &&& elem_count(dims) * size <= isize::MAX
}

/// A tensor of these dimensions has no elements.
pub open spec fn is_empty(dims: Seq<usize>) -> bool {
    exists|k: int| 0 <= k < dims.len() && #[trigger] dims[k] == 0
}

/// A tensor without elements starts where its storage does. One that does not, because it was
/// cut out of another, may start behind the end of its storage, where candle cannot read.
pub open spec fn readable(t: Tensor) -> bool {
    is_empty(tensor_dims(t)) ==> tensor_start(t) == 0
}

/// Bytes that are all zero.
pub open spec fn zero_bytes(n: nat) -> Seq<u8> {
    Seq::new(n, |i: int| 0u8)
}

/// Piece `i` of equally long pieces of bytes: an element, or a row.
pub open spec fn piece(b: Seq<u8>, size: nat, i: int) -> Seq<u8> {
    b.subrange(i * size, i * size + size)
}

/// `r` holds the `n` elements of `b` cast from one type to another, one by one.
pub open spec fn is_cast(from: DType, to: DType, n: nat, b: Seq<u8>, r: Seq<u8>) -> bool {
    &&& b.len() == n * elem_size(from)
    &&& r.len() == n * elem_size(to)
    &&& forall|i: int|
        0 <= i < n ==> elem_cast(
            from,
            to,
            #[trigger] piece(b, elem_size(from), i),
            piece(r, elem_size(to), i),
        )
}

/// `r` holds the sums of the `n` elements of `a` and `b`, one by one.
pub open spec fn is_sum(dtype: DType, n: nat, a: Seq<u8>, b: Seq<u8>, r: Seq<u8>) -> bool {
    &&& a.len() == n * elem_size(dtype)
    &&& b.len() == n * elem_size(dtype)
    &&& r.len() == n * elem_size(dtype)
    &&& forall|i: int|
        0 <= i < n ==> elem_sum(
            dtype,
            #[trigger] piece(a, elem_size(dtype), i),
            piece(b, elem_size(dtype), i),
            piece(r, elem_size(dtype), i),
        )
}

/// Where byte `i` of a narrowed block lies in the block it was taken from: of every `full`
/// bytes, the `part` bytes from `skipped` on were kept.
pub open spec fn narrow_at(full: nat, skipped: nat, part: nat, i: int) -> int {
    (i / part as int) * full + skipped + i % part as int
}

/// What is left of `b` when of every `full` bytes only the `part` from `skipped` on are kept,
/// `outer` times.
pub open spec fn narrow_bytes(
    b: Seq<u8>,
    outer: nat,
    full: nat,
    skipped: nat,
    part: nat,
) -> Seq<u8> {
    Seq::new(outer * part, |i: int| b[narrow_at(full, skipped, part, i)])
}

/// `outer` times `la` bytes of `a` followed by `lb` bytes of `b`.
pub open spec fn cat_bytes(a: Seq<u8>, la: nat, b: Seq<u8>, lb: nat, outer: nat) -> Seq<u8> {
    Seq::new(
        outer * (la + lb),
        |i: int|
            {
                let row = i / (la + lb) as int;
                let at = i % (la + lb) as int;
                if at < la {
                    a[row * la + at]
                } else {
                    b[row * lb + (at - la)]
                }
            },
    )
}

/// The bytes of one step along dimension `dim`.
pub open spec fn step_bytes(dims: Seq<usize>, size: nat, dim: int) -> nat {
    elem_count(dims.skip(dim + 1)) * size
}

/// The bytes of one row of a tensor.
pub open spec fn row_size(t: Tensor) -> nat {
    step_bytes(tensor_dims(t), elem_size(tensor_dtype(t)), 0)
}

/// The elements of a tensor lie in its storage row by row.
pub open spec fn by_rows(t: Tensor) -> bool {
    &&& tensor_stride(t).len() == tensor_dims(t).len()
    &&& forall|k: int|
        0 <= k < tensor_dims(t).len() && tensor_dims(t)[k] > 1 ==> #[trigger] tensor_stride(t)[k]
            == elem_count(tensor_dims(t).skip(k + 1))
}

/// A tensor with a storage of its own: its elements lie row by row from the start of it.
pub open spec fn is_fresh(t: Tensor, dims: Seq<usize>, dtype: DType, on_cpu: bool) -> bool {
    &&& tensor_dims(t) == dims
    &&& tensor_dtype(t) == dtype
    &&& tensor_on_cpu(t) == on_cpu
    &&& tensor_start(t) == 0
    &&& tensor_stride(t).len() == dims.len()
    &&& forall|k: int|
        0 <= k < dims.len() ==> #[trigger] tensor_stride(t)[k] == elem_count(dims.skip(k + 1))
}

/// The sizes that looking up `ids` in a table leads to can be counted, and the table can be read.
pub open spec fn embeddable(table: Tensor, hidden_size: usize, ids: Tensor) -> bool {
    let size = elem_size(tensor_dtype(table));
    &&& readable(table)
    &&& countable(tensor_dims(ids), elem_size(tensor_dtype(ids)))
    &&& tensor_dims(table).len() > 0 ==> countable(
        tensor_dims(table).update(0, elem_count(tensor_dims(ids)) as usize),
        size,
    )
    &&& countable(tensor_dims(ids).push(hidden_size), size)
}

/// Each of the first `n` numbers of `v` names one of the rows, or is the greatest of its type.
pub open spec fn all_rows_exist(v: Seq<int>, n: nat, rows: usize, limit: int) -> bool {
    forall|i: int| 0 <= i < n ==> (#[trigger] v[i] == limit || (v[i] as usize) < rows)
}

/// Piece `i` of `b` is the row of a table that number `i` of `v` names, where there is one.
pub open spec fn rows_looked_up(
    b: Seq<u8>,
    table: Seq<u8>,
    step: nat,
    rows: usize,
    v: Seq<int>,
    n: nat,
    limit: int,
) -> bool {
    forall|i: int|
        0 <= i < n && #[trigger] v[i] != limit && (v[i] as usize) < rows ==> piece(b, step, i)
            == piece(table, step, v[i] as usize as int)
}

/// A tensor that was made here, and the only handle to its storage.
#[derive(Debug)]
pub struct Sealed {
    t: Tensor,
}

impl View for Sealed {
    type V = Tensor;

    closed spec fn view(&self) -> Tensor {
        self.t
    }
}

impl Sealed {
    /// Hands the tensor out.
    pub fn into_tensor(self) -> (r: Tensor)
        ensures
            r == self@,
    {
        self.t
    }

    /// The dimensions.
    pub fn dims(&self) -> (r: &[usize])
        ensures
            r@ == tensor_dims(self@),
    {
        self.t.dims()
    }

    /// The type of the elements.
    pub fn dtype(&self) -> (r: DType)
        ensures
            r == tensor_dtype(self@),
    {
        self.t.dtype()
    }
}

/// Claims of `DType::size_in_bytes` the table that its source holds.
pub assume_specification[ candle_core::DType::size_in_bytes ](d: &DType) -> (r: usize)
    ensures
        r == elem_size(*d),
;

/// Claims of the `==` that candle derives for `DType` that it compares the variants.
pub assume_specification[ <candle_core::DType as PartialEq>::eq ](d: &DType, e: &DType) -> (r: bool)
    ensures
        r == (*d == *e),
;

/// Claims of `Tensor::clone` that the clone is the same tensor: candle counts references.
pub assume_specification[ <candle_core::Tensor as Clone>::clone ](t: &Tensor) -> (r: Tensor)
    ensures
        r == *t,
;

/// Claims of `Tensor::dtype` that it returns the type of the elements.
pub assume_specification[ candle_core::Tensor::dtype ](t: &Tensor) -> (r: DType)
    ensures
        r == tensor_dtype(*t),
;

/// Claims of `Tensor::dims` that it returns the dimensions.
pub assume_specification[ candle_core::Tensor::dims ](t: &Tensor) -> (r: &[usize])
    ensures
        r@ == tensor_dims(*t),
;

/// Claims of `Tensor::device` that it is the CPU exactly for a tensor in host memory.
pub assume_specification[ candle_core::Tensor::device ](t: &Tensor) -> (r: &Device)
    ensures
        (*r is Cpu) == tensor_on_cpu(*t),
;

/// Claims of `Tensor::stride` that it returns the strides in elements.
pub assume_specification[ candle_core::Tensor::stride ](t: &Tensor) -> (r: &[usize])
    ensures
        r@ == tensor_stride(*t),
;

/// Claims of `Tensor::elem_count` that it is the product of the dimensions, where that fits.
pub assume_specification[ candle_core::Tensor::elem_count ](t: &Tensor) -> (r: usize)
    requires
        countable(tensor_dims(*t), 0),
    ensures
        r == elem_count(tensor_dims(*t)),
;

/// Claims of `Tensor::to_dtype` that it keeps a tensor that has the type already, and else casts
/// every element that the tensor holds. It fails for the types that candle stores without computing
/// with them, and in host memory for no others. A cast has a storage of its own.
pub assume_specification[ candle_core::Tensor::to_dtype ](t: &Tensor, dtype: DType) -> (r: Result<
    Tensor,
    candle_core::Error,
>)
    requires
        countable(tensor_dims(*t), elem_size(dtype)),
        readable(*t),
    ensures
        tensor_dtype(*t) == dtype ==> r is Ok && r->Ok_0 == *t,
        r is Ok && tensor_dtype(*t) != dtype ==> computes(tensor_dtype(*t)) && computes(dtype),
        tensor_on_cpu(*t) && computes(tensor_dtype(*t)) && computes(dtype) ==> r is Ok,
        r is Ok && tensor_dtype(*t) != dtype ==> is_fresh(
            r->Ok_0,
            tensor_dims(*t),
            dtype,
            tensor_on_cpu(*t),
        ),
        r is Ok && tensor_dtype(*t) != dtype ==> exists|b: Seq<u8>| #[trigger]
            held(*t, b) && is_cast(
                tensor_dtype(*t),
                dtype,
                elem_count(tensor_dims(*t)),
                b,
                made_bytes(r->Ok_0),
            ),
;

/// Claims of `Tensor::add` that it adds the elements that two tensors hold, one by one, only where
/// the dimensions agree and, unless there are no elements, the types; in host memory it then
/// succeeds for the types that candle computes with. Sums of integers have to fit, and candle can
/// walk only so many dimensions.
pub assume_specification[ candle_core::Tensor::add ](t: &Tensor, rhs: &Tensor) -> (r: Result<
    Tensor,
    candle_core::Error,
>)
    requires
        countable(tensor_dims(*t), elem_size(tensor_dtype(*t))),
        sums_fit(*t, *rhs),
        walks_together(*t, *rhs),
    ensures
        tensor_dims(*t) != tensor_dims(*rhs) ==> r is Err,
        tensor_dtype(*t) != tensor_dtype(*rhs) && !is_empty(tensor_dims(*t)) ==> r is Err,
        tensor_dims(*t) == tensor_dims(*rhs) && tensor_dtype(*t) == tensor_dtype(*rhs) && computes(
            tensor_dtype(*t),
        ) && tensor_on_cpu(*t) && tensor_on_cpu(*rhs) ==> r is Ok,
        r matches Ok(s) ==> {
            &&& tensor_dims(s) == tensor_dims(*t)
            &&& tensor_dtype(s) == tensor_dtype(*t)
            &&& tensor_on_cpu(s) == tensor_on_cpu(*t)
        },
        r is Ok && !is_empty(tensor_dims(*t)) && computes(tensor_dtype(*t)) ==> exists|
            a: Seq<u8>,
            b: Seq<u8>,
        | #[trigger]
            held(*t, a) && #[trigger] held(*rhs, b) && a.len() == elem_count(tensor_dims(*t))
                * elem_size(tensor_dtype(*t)) && b.len() == a.len() && made_bytes(r->Ok_0).len()
                == a.len() && forall|i: int|
                0 <= i < elem_count(tensor_dims(*t)) ==> elem_sum(
                    tensor_dtype(*t),
                    #[trigger] piece(a, elem_size(tensor_dtype(*t)), i),
                    piece(b, elem_size(tensor_dtype(*t)), i),
                    piece(made_bytes(r->Ok_0), elem_size(tensor_dtype(*t)), i),
                ),
;

/// Calls `Tensor::zeros`. Claims that a tensor which comes back has the dimensions and the type
/// asked for, a storage of its own, and was made with zeros. In host memory it comes back for the
/// types that candle computes with, and only for them; on other devices room may be short.
#[verifier::external_body]
pub(crate) fn zeros(dims: &[usize], dtype: DType, device: &Device) -> (r: Result<
    Sealed,
    candle_core::Error,
>)
    requires
        countable(dims@, elem_size(dtype)),
    ensures
        *device is Cpu ==> (r is Ok <==> computes(dtype)),
        r matches Ok(s) ==> {
            &&& is_fresh(s@, dims@, dtype, *device is Cpu)
            &&& made_bytes(s@) == zero_bytes(elem_count(dims@) * elem_size(dtype))
        },
{
    Tensor::zeros(dims, dtype, device).map(|t| Sealed { t })
}

/// Calls `Tensor::to_dtype` on the tensor that `Tensor::from_raw_buffer` makes of the bytes.
/// Claims that a tensor which comes back was made with the bytes cast element by element and has a
/// storage of its own. It does not come back for bytes whose number does not suit the dimensions,
/// nor for types that candle only stores, and in host memory it else does. The bytes have to make
/// up whole elements, since candle copies all of them into room for whole elements.
#[verifier::external_body]
pub(crate) fn cast_bytes(
    data: &[u8],
    from: DType,
    to: DType,
    shape: &[usize],
    device: &Device,
) -> (r: Result<Sealed, candle_core::Error>)
    requires
        from != to,
        elem_size(from) > 0,
        countable(shape@, elem_size(from)),
        countable(shape@, elem_size(to)),
        data@.len() % elem_size(from) == 0,
    ensures
        *device is Cpu && computes(from) && computes(to) && data@.len() == elem_count(shape@)
            * elem_size(from) ==> r is Ok,
        r matches Ok(s) ==> {
            &&& computes(from)
            &&& computes(to)
            &&& is_fresh(s@, shape@, to, *device is Cpu)
            &&& data@.len() == elem_count(shape@) * elem_size(from)
            &&& made_bytes(s@).len() == elem_count(shape@) * elem_size(to)
            &&& forall|i: int|
                0 <= i < elem_count(shape@) ==> elem_cast(
                    from,
                    to,
                    #[trigger] piece(data@, elem_size(from), i),
                    piece(made_bytes(s@), elem_size(to), i),
                )
        },
{
    Tensor::from_raw_buffer(data, from, shape, device)?.to_dtype(to).map(|t| Sealed { t })
}

/// Calls `Tensor::layout` and `Layout::start_offset`. Claims that this is where the tensor
/// starts in its storage.
#[verifier::external_body]
pub(crate) fn start_offset(t: &Tensor) -> (r: usize)
    ensures
        r == tensor_start(*t),
{
    t.layout().start_offset()
}

/// Calls `Tensor::narrow`. Claims that it succeeds exactly where the dimension exists and has
/// the steps asked for, and then keeps only these, in the same storage. The tensor is given up,
/// since what comes back shares its storage.
#[verifier::external_body]
pub(crate) fn narrow(s: Sealed, dim: usize, start: usize, len: usize) -> (r: Result<
    Sealed,
    candle_core::Error,
>)
    requires
        start + len <= usize::MAX,
        dim < tensor_dims(s@).len() && start + len <= tensor_dims(s@)[dim as int]
            ==> dim < tensor_stride(s@).len() && tensor_start(s@) + tensor_stride(s@)[dim as int]
            * start <= usize::MAX,
    ensures
        r is Ok <==> (dim < tensor_dims(s@).len() && start + len <= tensor_dims(s@)[dim as int]),
        r matches Ok(n) ==> {
            &&& tensor_dims(n@) == tensor_dims(s@).update(dim as int, len)
            &&& tensor_dtype(n@) == tensor_dtype(s@)
            &&& tensor_on_cpu(n@) == tensor_on_cpu(s@)
            &&& tensor_stride(n@) == tensor_stride(s@)
            &&& tensor_start(n@) == tensor_start(s@) + tensor_stride(s@)[dim as int] * start
            &&& made_bytes(n@) == ({
                let dims = tensor_dims(s@);
                let step = step_bytes(dims, elem_size(tensor_dtype(s@)), dim as int);
                narrow_bytes(
                    made_bytes(s@),
                    elem_count(dims.take(dim as int)),
                    (dims[dim as int] * step) as nat,
                    (start * step) as nat,
                    (len * step) as nat,
                )
            })
        },
{
    s.t.narrow(dim, start, len).map(|t| Sealed { t })
}

/// Calls `Tensor::contiguous`. Claims that it keeps everything but the layout, which is row by
/// row, from the same place of the same storage or from the start of a new one; in host memory it
/// succeeds for the types that candle computes with. The tensor is given up, since what comes back
/// may share its storage.
#[verifier::external_body]
pub(crate) fn contiguous(s: Sealed) -> (r: Result<Sealed, candle_core::Error>)
    requires
        countable(tensor_dims(s@), elem_size(tensor_dtype(s@))),
    ensures
        tensor_on_cpu(s@) && computes(tensor_dtype(s@)) ==> r is Ok,
        r matches Ok(c) ==> {
            &&& tensor_dims(c@) == tensor_dims(s@)
            &&& tensor_dtype(c@) == tensor_dtype(s@)
            &&& tensor_on_cpu(c@) == tensor_on_cpu(s@)
            &&& by_rows(c@)
            &&& tensor_start(c@) == tensor_start(s@) || tensor_start(c@) == 0
            &&& made_bytes(c@) == made_bytes(s@)
        },
{
    s.t.contiguous().map(|t| Sealed { t })
}

/// The dimensions of `a` with those of `b` added along one of them.
pub open spec fn cat_dims(a: Seq<usize>, b: Seq<usize>, dim: int) -> Seq<usize> {
    a.update(dim, (a[dim] + b[dim]) as usize)
}

/// The dimension exists, and is the only one in which `a` and `b` may differ.
pub open spec fn cat_fits(a: Seq<usize>, b: Seq<usize>, dim: int) -> bool {
    &&& 0 <= dim < a.len()
    &&& b.len() == a.len()
    &&& b == a.update(dim, b[dim])
}

/// Nothing is read of `t` where it is joined with another, although it may start behind the end of
/// its storage: there are no blocks to join, and a block would be of both tensors.
pub open spec fn nothing_to_join(t: Tensor, other: Tensor, dim: int) -> bool {
    let dims = tensor_dims(t);
    &&& by_rows(t)
    &&& by_rows(other)
    &&& is_empty(dims.take(dim))
    &&& !is_empty(dims.skip(dim + 1))
    &&& tensor_dims(other)[dim] > 0
}

/// Calls `Tensor::cat` on two tensors. Claims that it puts the steps of the second along the
/// dimension behind those of the first, only where the other dimensions and the types agree; in
/// host memory it then succeeds for the types that candle computes with.
#[verifier::external_body]
pub(crate) fn cat(a: &Sealed, b: &Sealed, dim: usize) -> (r: Result<Sealed, candle_core::Error>)
    requires
        cat_fits(tensor_dims(a@), tensor_dims(b@), dim as int) ==> {
            &&& tensor_dims(a@)[dim as int] + tensor_dims(b@)[dim as int] <= usize::MAX
            &&& countable(
                cat_dims(tensor_dims(a@), tensor_dims(b@), dim as int),
                elem_size(tensor_dtype(a@)),
            )
            &&& readable(a@) || nothing_to_join(a@, b@, dim as int)
            &&& readable(b@) || nothing_to_join(b@, a@, dim as int)
        },
    ensures
        !cat_fits(tensor_dims(a@), tensor_dims(b@), dim as int) ==> r is Err,
        tensor_dtype(a@) != tensor_dtype(b@) ==> r is Err,
        cat_fits(tensor_dims(a@), tensor_dims(b@), dim as int) && tensor_dtype(a@) == tensor_dtype(
            b@,
        ) && computes(tensor_dtype(a@)) && tensor_on_cpu(a@) && tensor_on_cpu(b@) ==> r is Ok,
        r matches Ok(c) ==> {
            &&& tensor_dims(c@) == cat_dims(tensor_dims(a@), tensor_dims(b@), dim as int)
            &&& tensor_dtype(c@) == tensor_dtype(a@)
            &&& tensor_on_cpu(c@) == tensor_on_cpu(a@)
            &&& made_bytes(c@) == ({
                let dims = tensor_dims(a@);
                let step = step_bytes(dims, elem_size(tensor_dtype(a@)), dim as int);
                cat_bytes(
                    made_bytes(a@),
                    (dims[dim as int] * step) as nat,
                    made_bytes(b@),
                    (tensor_dims(b@)[dim as int] * step) as nat,
                    elem_count(dims.take(dim as int)),
                )
            })
        },
{
    Tensor::cat(&[&a.t, &b.t], dim).map(|t| Sealed { t })
}

/// Calls `Tensor::index_select` along the first dimension, for numbers that `Tensor::from_vec`
/// puts on the tensor's device. Claims that row `i` of the result is the row that number `i` names
/// of what the tensor holds, where there is such a row; the greatest number is no index. In host
/// memory it succeeds exactly for a tensor that lies row by row, with an element type that candle
/// computes with, where no index is too great. What makes it fail elsewhere, other than a lack of
/// dimensions, is left open.
#[verifier::external_body]
pub(crate) fn index_select(t: &Tensor, rows: Vec<u32>) -> (r: Result<Tensor, candle_core::Error>)
    requires
        readable(*t),
        tensor_dims(*t).len() > 0 ==> countable(
            tensor_dims(*t).update(0, rows@.len() as usize),
            elem_size(tensor_dtype(*t)),
        ),
    ensures
        tensor_dims(*t).len() == 0 ==> r is Err,
        tensor_dims(*t).len() > 0 && tensor_on_cpu(*t) ==> (r is Ok <==> (by_rows(*t) && computes(
            tensor_dtype(*t),
        ) && forall|i: int|
            0 <= i < rows@.len() ==> (#[trigger] rows@[i] < tensor_dims(*t)[0] || rows@[i]
                == u32::MAX))),
        r is Ok ==> is_fresh(
            r->Ok_0,
            tensor_dims(*t).update(0, rows@.len() as usize),
            tensor_dtype(*t),
            tensor_on_cpu(*t),
        ),
        r is Ok && computes(tensor_dtype(*t)) ==> exists|b: Seq<u8>| #[trigger]
            held(*t, b) && forall|i: int|
                0 <= i < rows@.len() && #[trigger] rows@[i] < tensor_dims(*t)[0] && rows@[i]
                    != u32::MAX ==> piece(made_bytes(r->Ok_0), row_size(*t), i) == piece(
                    b,
                    row_size(*t),
                    rows@[i] as int,
                ),
{
    let n = rows.len();
    t.index_select(&Tensor::from_vec(rows, (n,), t.device())?, 0)
}

/// Calls `candle_nn::Embedding::new` and its `forward`. Claims that a result holds, for every
/// number that `ids` holds, the row of what the table holds that the number names, where there is
/// such a row; in host memory the greatest number of its type gives zeros. There it fails for
/// numbers of a type that is no index and where a number is too great, and succeeds otherwise if
/// the table has rows of `hidden_size`, lies row by row and has an element type that candle
/// computes with. What happens elsewhere is left open.
#[verifier::external_body]
pub(crate) fn embed(table: &Tensor, hidden_size: usize, ids: &Tensor) -> (r: Result<
    Tensor,
    candle_core::Error,
>)
    requires
        embeddable(*table, hidden_size, *ids),
    ensures
        tensor_dims(*table).len() == 0 ==> r is Err,
        tensor_on_cpu(*table) && tensor_on_cpu(*ids) && index_limit(tensor_dtype(*ids)) is None
            ==> r is Err,
        tensor_dims(*table).len() > 0 && tensor_on_cpu(*table) && tensor_on_cpu(*ids)
            && index_limit(tensor_dtype(*ids)) is Some && (forall|v: Seq<int>| #[trigger]
            held_ints(*ids, v) ==> !all_rows_exist(
                v,
                elem_count(tensor_dims(*ids)),
                tensor_dims(*table)[0],
                index_limit(tensor_dtype(*ids))->0,
            )) ==> r is Err,
        tensor_dims(*table).len() == 2 && tensor_dims(*table)[1] == hidden_size && tensor_on_cpu(
            *table,
        ) && tensor_on_cpu(*ids) && index_limit(tensor_dtype(*ids)) is Some && by_rows(*table)
            && computes(tensor_dtype(*table)) && (forall|v: Seq<int>| #[trigger]
            held_ints(*ids, v) ==> all_rows_exist(
                v,
                elem_count(tensor_dims(*ids)),
                tensor_dims(*table)[0],
                index_limit(tensor_dtype(*ids))->0,
            )) ==> r is Ok,
        r is Ok ==> is_fresh(
            r->Ok_0,
            tensor_dims(*ids).push(hidden_size),
            tensor_dtype(*table),
            tensor_on_cpu(*table),
        ),
        r is Ok && computes(tensor_dtype(*table)) && index_limit(tensor_dtype(*ids)) is Some
            ==> exists|v: Seq<int>, b: Seq<u8>|
            #![trigger held_ints(*ids, v), held(*table, b)]
            {
                &&& held_ints(*ids, v)
                &&& held(*table, b)
                &&& rows_looked_up(
                    made_bytes(r->Ok_0),
                    b,
                    row_size(*table),
                    tensor_dims(*table)[0],
                    v,
                    elem_count(tensor_dims(*ids)),
                    index_limit(tensor_dtype(*ids))->0,
                )
                &&& tensor_on_cpu(*table) ==> forall|i: int|
                    0 <= i < elem_count(tensor_dims(*ids)) && #[trigger] v[i] == index_limit(
                        tensor_dtype(*ids),
                    )->0 ==> piece(made_bytes(r->Ok_0), row_size(*table), i) == zero_bytes(
                        row_size(*table),
                    )
            },
{
    candle_nn::Embedding::new(table.clone(), hidden_size).forward(ids)
}

/// Tests whether a tensor of the given dimensions has no elements.
pub fn has_no_elements(dims: &[usize]) -> (r: bool)
    ensures
        r == is_empty(dims@),
{
    let mut k: usize = 0;
    while k < dims.len()
        invariant
            k <= dims@.len(),
            forall|j: int| 0 <= j < k ==> #[trigger] dims@[j] != 0,
        decreases dims@.len() - k,
    {
        if dims[k] == 0 {
            return true;
        }
        k = k + 1;
    }
    false
}

/// Tests whether a tensor is in host memory.
pub fn is_on_cpu(t: &Tensor) -> (r: bool)
    ensures
        r == tensor_on_cpu(*t),
{
    match t.device() {
        Device::Cpu => true,
        _ => false,
    }
}

/// Tests whether two tensors have the same dimensions.
fn same_dims(a: &[usize], b: &[usize]) -> (r: bool)
    ensures
        r == (a@ == b@),
{
    if a.len() != b.len() {
        return false;
    }
    let mut k: usize = 0;
    while k < a.len()
        invariant
            k <= a@.len(),
            a@.len() == b@.len(),
            forall|j: int| 0 <= j < k ==> #[trigger] a@[j] == b@[j],
        decreases a@.len() - k,
    {
        if a[k] != b[k] {
            return false;
        }
        k = k + 1;
    }
    assert(a@ =~= b@);
    true
}

/// Tests whether two tensors do not have too many dimensions to be added.
pub fn can_walk_together(a: &Tensor, b: &Tensor) -> (r: bool)
    ensures
        r == walks_together(*a, *b),
{
    a.dims().len() <= MAX_WALK || !same_dims(a.dims(), b.dims()) || a.dtype() != b.dtype()
        || !is_on_cpu(a) || !is_on_cpu(b) || has_no_elements(a.dims())
}

/// Tests whether a tensor can be read.
pub fn is_readable(t: &Tensor) -> (r: bool)
    ensures
        r == readable(*t),
{
    start_offset(t) == 0 || !has_no_elements(t.dims())
}

/// The elements of joined dimensions are the product of those of the parts.
pub proof fn lemma_elem_count_concat(a: Seq<usize>, b: Seq<usize>)
    ensures
        elem_count(a + b) == elem_count(a) * elem_count(b),
    decreases b.len(),
{
    if b.len() == 0 {
        assert(a + b =~= a);
        vstd::arithmetic::mul::lemma_mul_basics(elem_count(a) as int);
    } else {
        lemma_elem_count_concat(a, b.drop_last());
        assert((a + b).drop_last() =~= a + b.drop_last());
        assert((a + b).last() == b.last());
        vstd::arithmetic::mul::lemma_mul_is_associative(
            elem_count(a) as int,
            elem_count(b.drop_last()) as int,
            b.last() as int,
        );
    }
}

/// The number of elements in one and in two dimensions.
pub proof fn lemma_elem_count_small()
    ensures
        forall|a: usize| elem_count(#[trigger] seq![a]) == a,
        forall|a: usize, b: usize| elem_count(#[trigger] seq![a, b]) == a * b,
{
    assert forall|a: usize| elem_count(#[trigger] seq![a]) == a by {
        reveal_with_fuel(elem_count, 2);
        assert(seq![a].drop_last() =~= Seq::<usize>::empty());
        assert(1 * a == a) by (nonlinear_arith);
    }
    assert forall|a: usize, b: usize| elem_count(#[trigger] seq![a, b]) == a * b by {
        reveal_with_fuel(elem_count, 3);
        assert(seq![a, b].drop_last() =~= seq![a]);
        assert(seq![a].drop_last() =~= Seq::<usize>::empty());
        assert(1 * a == a) by (nonlinear_arith);
    }
}

/// Dimensions that are no greater have no more elements.
pub proof fn lemma_elem_count_monotone(a: Seq<usize>, b: Seq<usize>)
    requires
        a.len() == b.len(),
        forall|i: int| 0 <= i < a.len() ==> #[trigger] a[i] <= b[i],
    ensures
        elem_count(a) <= elem_count(b),
    decreases a.len(),
{
    if a.len() > 0 {
        assert forall|i: int| 0 <= i < a.len() - 1 implies #[trigger] a.drop_last()[i]
            <= b.drop_last()[i] by {
            assert(a[i] <= b[i]);
        }
        lemma_elem_count_monotone(a.drop_last(), b.drop_last());
        vstd::arithmetic::mul::lemma_mul_upper_bound(
            elem_count(a.drop_last()) as int,
            elem_count(b.drop_last()) as int,
            a.last() as int,
            b.last() as int,
        );
    }
}

/// Dimensions that can be counted still can when one of them shrinks.
pub proof fn lemma_countable_shrink(dims: Seq<usize>, size: nat, i: int, n: usize)
    requires
        countable(dims, size),
        0 <= i < dims.len(),
        n <= dims[i],
    ensures
        countable(dims.update(i, n), size),
{
    let small = dims.update(i, n);
    assert forall|k: int| 0 <= k <= small.len() implies elem_count(#[trigger] small.take(k))
        <= usize::MAX by {
        lemma_elem_count_monotone(small.take(k), dims.take(k));
        assert(elem_count(dims.take(k)) <= usize::MAX);
    }
    assert forall|k: int| 0 <= k <= small.len() implies elem_count(#[trigger] small.skip(k))
        <= usize::MAX by {
        lemma_elem_count_monotone(small.skip(k), dims.skip(k));
        assert(elem_count(dims.skip(k)) <= usize::MAX);
    }
    lemma_elem_count_monotone(small, dims);
    vstd::arithmetic::mul::lemma_mul_inequality(
        elem_count(small) as int,
        elem_count(dims) as int,
        size as int,
    );
}

/// A step inside a tensor with a storage of its own is inside the numbers.
pub proof fn lemma_stride_fits(t: Tensor, dim: int, start: usize)
    requires
        is_fresh(t, tensor_dims(t), tensor_dtype(t), tensor_on_cpu(t)),
        countable(tensor_dims(t), elem_size(tensor_dtype(t))),
        0 <= dim < tensor_dims(t).len(),
        start <= tensor_dims(t)[dim],
    ensures
        tensor_stride(t)[dim] * start <= usize::MAX,
{
    let dims = tensor_dims(t);
    let d: usize = dims[dim];
    lemma_elem_count_small();
    lemma_elem_count_concat(seq![d], dims.skip(dim + 1));
    assert(dims.skip(dim) =~= seq![d] + dims.skip(dim + 1));
    let inner = elem_count(dims.skip(dim + 1));
    assert(elem_count(dims.skip(dim)) <= usize::MAX);
    assert(inner * start <= d * inner) by (nonlinear_arith)
        requires
            start <= d,
    ;
}

/// Dimensions that can be counted for elements of some size can be counted as such.
pub proof fn lemma_countable_zero(dims: Seq<usize>, size: nat)
    requires
        countable(dims, size),
    ensures
        countable(dims, 0),
{
    assert(elem_count(dims) * 0 == 0) by (nonlinear_arith);
}

/// Tests whether dimensions can be counted.
pub fn is_countable(dims: &[usize], size: usize) -> (r: bool)
    ensures
        r == countable(dims@, size as nat),
{
    let n: usize = dims.len();
    let mut count: usize = 1;
    let mut k: usize = 0;
    while k < n
        invariant
            n == dims@.len(),
            k <= n,
            count == elem_count(dims@.take(k as int)),
            forall|j: int| 0 <= j <= k ==> elem_count(#[trigger] dims@.take(j)) <= usize::MAX,
        decreases n - k,
    {
        assert(dims@.take(k + 1).drop_last() =~= dims@.take(k as int));
        assert(dims@.take(k + 1).last() == dims@[k as int]);
        match count.checked_mul(dims[k]) {
            Some(c) => {
                count = c;
            },
            None => {
                assert(elem_count(dims@.take(k + 1)) > usize::MAX);
                return false;
            },
        }
        k = k + 1;
    }
    assert(dims@.take(n as int) =~= dims@);
    let total: usize = count;
    count = 1;
    assert(dims@.skip(n as int) =~= Seq::<usize>::empty());
    while k > 0
        invariant
            n == dims@.len(),
            k <= n,
            count == elem_count(dims@.skip(k as int)),
            forall|j: int| k <= j <= n ==> elem_count(#[trigger] dims@.skip(j)) <= usize::MAX,
        decreases k,
    {
        k = k - 1;
        proof {
            let d: usize = dims@[k as int];
            lemma_elem_count_small();
            lemma_elem_count_concat(seq![d], dims@.skip(k + 1));
            assert(dims@.skip(k as int) =~= seq![d] + dims@.skip(k + 1));
            vstd::arithmetic::mul::lemma_mul_is_commutative(d as int, count as int);
        }
        match count.checked_mul(dims[k]) {
            Some(c) => {
                count = c;
            },
            None => {
                assert(elem_count(dims@.skip(k as int)) > usize::MAX);
                return false;
            },
        }
    }
    let limit: usize = isize::MAX as usize;
    match total.checked_mul(size) {
        Some(bytes) => bytes <= limit,
        None => false,
    }
}

} // verus!
