//! Filling the buffers of an index from the weight files: what is to be done, in which order.
//!
//! One rank reads each file into page-locked memory and sends the bytes to all others. Then
//! every rank fills its buffers, either straight from that memory or, where the element types
//! differ, by way of a cast.

use crate::utils::convert;
use crate::utils::error::ShardError;
use crate::utils::index_files;
use crate::utils::path;
use crate::utils::path::file_label_of;
use crate::utils::tensor;
use crate::utils::tensor_index;
use crate::utils::tensor_index::{TensorIndex, TensorMeta};
use crate::utils::text;
use crate::utils::transfer;
use crate::utils::transfer::{pinned_copy_to_gpu, GpuCopy};
use candle_core::{DType, Device, Tensor};
use vstd::prelude::*;

verus! {

/// Page-locked host memory that a GPU can reach. The address is zero where there is none.
#[derive(Debug)]
pub struct PinnedBuffer {
    pub ptr: usize,
    pub capacity: usize,
}

/// A run of bytes in host memory.
#[derive(Debug, Clone, Copy, PartialEq, Eq, Structural)]
pub struct Region {
    pub ptr: usize,
    pub len: usize,
}

impl PinnedBuffer {
    /// The bytes to ask the driver for; an empty buffer needs none.
    pub fn request(size: usize) -> (r: Option<usize>)
        ensures
            r == (if size == 0 {
                None
            } else {
                Some(size)
            }),
    {
        if size == 0 {
            None
        } else {
            Some(size)
        }
    }

    /// Makes a buffer out of what the driver granted: an address, or a code for why not. An
    /// empty buffer has no memory, whatever was granted.
    pub fn new(size: usize, granted: Result<usize, String>) -> (r: Result<PinnedBuffer, ShardError>)
        ensures
            match r {
                Ok(b) => {
                    ||| size == 0 && b.ptr == 0 && b.capacity == 0
                    ||| size != 0 && granted == Ok::<usize, String>(b.ptr) && b.capacity == size
                },
                Err(e) => size != 0 && granted is Err && e == (ShardError::HostAlloc {
                    size,
                    code: granted->Err_0,
                }),
            },
    {
        if size == 0 {
            return Ok(PinnedBuffer { ptr: 0, capacity: 0 });
        }
        match granted {
            Ok(ptr) => Ok(PinnedBuffer { ptr, capacity: size }),
            Err(code) => Err(ShardError::HostAlloc { size, code }),
        }
    }

    /// The bytes that the buffer holds.
    pub open spec fn region(&self) -> Region {
        if self.ptr == 0 {
            Region { ptr: 0, len: 0 }
        } else {
            Region { ptr: self.ptr, len: self.capacity }
        }
    }

    /// The bytes of the buffer, to read.
    pub fn as_slice(&self) -> (r: Region)
        ensures
            r == self.region(),
    {
        if self.ptr == 0 {
            return Region { ptr: 0, len: 0 };
        }
        Region { ptr: self.ptr, len: self.capacity }
    }

    /// The bytes of the buffer, to write.
    pub fn as_mut_slice(&mut self) -> (r: Region)
        ensures
            r == old(self).region(),
            *final(self) == *old(self),
    {
        if self.ptr == 0 {
            return Region { ptr: 0, len: 0 };
        }
        Region { ptr: self.ptr, len: self.capacity }
    }

    /// The address to read from.
    pub fn as_ptr(&self) -> (r: usize)
        ensures
            r == self.ptr,
    {
        self.ptr
    }

    /// The address to write to.
    pub fn as_mut_ptr(&mut self) -> (r: usize)
        ensures
            r == old(self).ptr,
            *final(self) == *old(self),
    {
        self.ptr
    }

    /// The address to give back to the driver when the buffer is no longer used.
    pub fn release(self) -> (r: Option<usize>)
        ensures
            r == (if self.ptr == 0 {
                None
            } else {
                Some(self.ptr)
            }),
    {
        if self.ptr == 0 {
            None
        } else {
            Some(self.ptr)
        }
    }
}

/// What is handed out for writing and what is handed out for reading are the same memory: byte `i`
/// of either is at the same address, and no other byte is there. An empty buffer has no address.
pub proof fn law_one_memory(
    size: usize,
    granted: Result<usize, String>,
    b: PinnedBuffer,
    i: int,
    j: int,
)
    requires
        granted is Ok && granted->Ok_0 != 0,
        size == 0 ==> b.ptr == 0 && b.capacity == 0,
        size != 0 ==> b.ptr == granted->Ok_0 && b.capacity == size,
    ensures
        b.ptr == 0 <==> size == 0,
        b.region().len == size,
        0 <= i < size && 0 <= j < size ==> (b.ptr + i == b.region().ptr + j <==> i == j),
{
}

impl Region {
    /// Tests whether the bytes from `start` to `end` are all in the region.
    pub fn holds(&self, start: usize, end: usize) -> (r: bool)
        ensures
            r == (start <= end <= self.len),
    {
        start <= end && end <= self.len
    }

    /// The bytes from `start` to `end`.
    pub fn part(&self, start: usize, end: usize) -> (r: Region)
        requires
            start <= end <= self.len,
            self.ptr + self.len <= usize::MAX,
        ensures
            r.ptr == self.ptr + start,
            r.len == end - start,
    {
        Region { ptr: self.ptr + start, len: end - start }
    }
}

/// Sending the bytes of a buffer to all ranks: from where, to where, how many, and from which
/// rank. A rank that does not send has no address to send from.
#[derive(Debug, Clone, Copy, PartialEq, Eq, Structural)]
pub struct Broadcast {
    pub send: usize,
    pub recv: usize,
    pub count: usize,
    pub root: i32,
}

/// Lays out how the bytes of a file get from the first rank to all others: the buffer is sent
/// as a whole.
pub fn broadcast_of(data_buf: &mut PinnedBuffer, iproc: usize, max_file_size: usize) -> (r:
    Broadcast)
    ensures
        *final(data_buf) == *old(data_buf),
        r == (Broadcast {
            send: if iproc == 0 {
                old(data_buf).ptr
            } else {
                0
            },
            recv: old(data_buf).ptr,
            count: max_file_size,
            root: 0,
        }),
{
    let send: usize = if iproc == 0 {
        data_buf.as_ptr()
    } else {
        0
    };
    let recv: usize = data_buf.as_mut_ptr();
    Broadcast { send, recv, count: max_file_size, root: 0 }
}

/// One step of loading.
#[derive(Debug)]
pub enum LoadStep {
    /// Get page-locked memory for the largest file.
    Allocate { size: usize },
    /// Find out the length of a file.
    Measure { path: String },
    /// Read a file, as long as was found, into the start of the memory.
    Read { path: String },
    /// Send the memory to all ranks.
    Broadcast { path: String },
    /// Wait until the device has done everything it was given.
    Synchronize,
    /// Fill the buffer of a tensor from the memory.
    Fill { path: String, name: String },
}

/// A step of loading over texts.
pub enum LoadStepView {
    Allocate { size: usize },
    Measure { path: Seq<char> },
    Read { path: Seq<char> },
    Broadcast { path: Seq<char> },
    Synchronize,
    Fill { path: Seq<char>, name: Seq<char> },
}

impl View for LoadStep {
    type V = LoadStepView;

    open spec fn view(&self) -> LoadStepView {
        match self {
            LoadStep::Allocate { size } => LoadStepView::Allocate { size: *size },
            LoadStep::Measure { path } => LoadStepView::Measure { path: path@ },
            LoadStep::Read { path } => LoadStepView::Read { path: path@ },
            LoadStep::Broadcast { path } => LoadStepView::Broadcast { path: path@ },
            LoadStep::Synchronize => LoadStepView::Synchronize,
            LoadStep::Fill { path, name } => LoadStepView::Fill { path: path@, name: name@ },
        }
    }
}

/// The steps over texts.
pub open spec fn step_views(steps: Seq<LoadStep>) -> Seq<LoadStepView> {
    steps.map_values(|s: LoadStep| s@)
}

/// Getting the bytes of one file into the memory of every rank. Only the first rank needs the file.
pub open spec fn fetch_steps(is_root: bool, path: Seq<char>) -> Seq<LoadStepView> {
    let read = if is_root {
        seq![LoadStepView::Measure { path }, LoadStepView::Read { path }]
    } else {
        Seq::empty()
    };
    read.push(LoadStepView::Broadcast { path }).push(LoadStepView::Synchronize)
}

/// Filling the buffers of those tensors that have one.
pub open spec fn fill_steps(
    tensors: Map<Seq<char>, TensorMeta>,
    path: Seq<char>,
    names: Seq<Seq<char>>,
) -> Seq<LoadStepView>
    decreases names.len(),
{
    if names.len() == 0 {
        Seq::empty()
    } else {
        let before = fill_steps(tensors, path, names.drop_last());
        let name = names.last();
        if tensors.contains_key(name) && tensors[name].buffer is Some {
            before.push(LoadStepView::Fill { path, name })
        } else {
            before
        }
    }
}

/// Loading one file, unless no tensor is listed for it.
pub open spec fn file_steps(ti: TensorIndex, is_root: bool, path: Seq<char>) -> Seq<LoadStepView> {
    match index_files::names_listed(ti.file_tensors@, path) {
        Some(names) => if names.len() == 0 {
            Seq::empty()
        } else {
            fetch_steps(is_root, path) + fill_steps(ti.tensors@, path, names)
        },
        None => Seq::empty(),
    }
}

/// Loading files one after the other.
pub open spec fn all_file_steps(ti: TensorIndex, is_root: bool, paths: Seq<Seq<char>>) -> Seq<
    LoadStepView,
>
    decreases paths.len(),
{
    if paths.len() == 0 {
        Seq::empty()
    } else {
        all_file_steps(ti, is_root, paths.drop_last()) + file_steps(ti, is_root, paths.last())
    }
}

/// Everything that loading takes.
pub open spec fn load_steps(ti: TensorIndex, is_root: bool) -> Seq<LoadStepView> {
    if ti.max_file_size == 0 {
        Seq::empty()
    } else {
        (seq![LoadStepView::Allocate { size: ti.max_file_size }] + all_file_steps(
            ti,
            is_root,
            text::texts(ti.weight_files@),
        )).push(LoadStepView::Synchronize)
    }
}

fn push_fills(steps: &mut Vec<LoadStep>, ti: &TensorIndex, path: &String, names: &Vec<String>)
    requires
        ti.wf(),
    ensures
        step_views(final(steps)@) == step_views(old(steps)@) + fill_steps(
            ti.tensors@,
            path@,
            text::texts(names@),
        ),
{
    let mut i: usize = 0;
    assert(step_views(steps@) =~= step_views(old(steps)@) + fill_steps(
        ti.tensors@,
        path@,
        text::texts(names@).take(0),
    ));
    while i < names.len()
        invariant
            i <= names@.len(),
            ti.wf(),
            step_views(steps@) == step_views(old(steps)@) + fill_steps(
                ti.tensors@,
                path@,
                text::texts(names@).take(i as int),
            ),
        decreases names@.len() - i,
    {
        let ghost before = steps@;
        let ghost so_far = text::texts(names@).take(i + 1);
        proof {
            assert(so_far.drop_last() =~= text::texts(names@).take(i as int));
            assert(so_far.last() == names@[i as int]@);
        }
        match ti.tensors.get(names[i].as_str()) {
            Some(meta) => {
                if meta.buffer.is_some() {
                    steps.push(LoadStep::Fill { path: path.clone(), name: names[i].clone() });
                    assert(step_views(steps@) =~= step_views(before).push(steps@.last()@));
                }
            },
            None => {},
        }
        i = i + 1;
        assert(step_views(steps@) =~= step_views(old(steps)@) + fill_steps(
            ti.tensors@,
            path@,
            so_far,
        ));
    }
    assert(text::texts(names@).take(i as int) =~= text::texts(names@));
}

fn push_fetch(steps: &mut Vec<LoadStep>, is_root: bool, path: &String)
    ensures
        step_views(final(steps)@) == step_views(old(steps)@) + fetch_steps(is_root, path@),
{
    if is_root {
        steps.push(LoadStep::Measure { path: path.clone() });
        steps.push(LoadStep::Read { path: path.clone() });
    }
    steps.push(LoadStep::Broadcast { path: path.clone() });
    steps.push(LoadStep::Synchronize);
    assert(step_views(steps@) =~= step_views(old(steps)@) + fetch_steps(is_root, path@));
}

/// Lays out the steps by which a rank fills the buffers of an index. They are done in turn, until
/// one fails (see [`crate::utils::run`]).
pub fn load_weights(ti: &TensorIndex, iproc: usize) -> (r: Vec<LoadStep>)
    requires
        ti.wf(),
    ensures
        step_views(r@) == load_steps(*ti, iproc == 0),
{
    let is_root = iproc == 0;
    let mut steps: Vec<LoadStep> = Vec::new();
    if ti.max_file_size == 0 {
        assert(step_views(steps@) =~= Seq::<LoadStepView>::empty());
        return steps;
    }
    steps.push(LoadStep::Allocate { size: ti.max_file_size });
    let ghost first = seq![LoadStepView::Allocate { size: ti.max_file_size }];
    let mut i: usize = 0;
    assert(step_views(steps@) =~= first + all_file_steps(
        *ti,
        is_root,
        text::texts(ti.weight_files@).take(0),
    ));
    while i < ti.weight_files.len()
        invariant
            i <= ti.weight_files@.len(),
            ti.wf(),
            step_views(steps@) == first + all_file_steps(
                *ti,
                is_root,
                text::texts(ti.weight_files@).take(i as int),
            ),
        decreases ti.weight_files@.len() - i,
    {
        let ghost before = step_views(steps@);
        let ghost so_far = text::texts(ti.weight_files@).take(i + 1);
        let path = &ti.weight_files[i];
        proof {
            assert(so_far.drop_last() =~= text::texts(ti.weight_files@).take(i as int));
            assert(so_far.last() == path@);
        }
        match ti.names_in_file(path.as_str()) {
            Some(names) => {
                if names.len() > 0 {
                    push_fetch(&mut steps, is_root, path);
                    push_fills(&mut steps, ti, path, names);
                }
            },
            None => {},
        }
        i = i + 1;
        assert(step_views(steps@) =~= before + file_steps(*ti, is_root, path@));
        assert(step_views(steps@) =~= first + all_file_steps(*ti, is_root, so_far));
    }
    let ghost before = step_views(steps@);
    assert(text::texts(ti.weight_files@).take(i as int) =~= text::texts(ti.weight_files@));
    steps.push(LoadStep::Synchronize);
    assert(step_views(steps@) =~= before.push(LoadStepView::Synchronize));
    steps
}

/// The element type that a tensor's bytes have: the one its file names, if it is known, and else
/// that of its buffer.
pub fn source_dtype(meta: &TensorMeta, gpu_buf: &Tensor) -> (r: DType)
    ensures
        r == (match tensor_index::dtype_named(meta.src_dtype@) {
            Some(d) => d,
            None => tensor::tensor_dtype(*gpu_buf),
        }),
{
    match TensorIndex::parse_dtype(meta.src_dtype.as_str()) {
        Some(d) => d,
        None => gpu_buf.dtype(),
    }
}

/// How a buffer is filled: by a copy from host memory, or with the elements of another tensor.
#[derive(Debug)]
pub enum Fill {
    Copy(GpuCopy),
    Converted(Tensor),
}

/// A buffer can be filled: a copy into it can be laid out, or the bytes can be cast for it.
pub open spec fn fill_defined(
    len: nat,
    gpu_buf: Tensor,
    dst_base: Option<u64>,
    src_dtype: DType,
    meta: TensorMeta,
    iproc: nat,
    nproc: nat,
) -> bool {
    if src_dtype == tensor::tensor_dtype(gpu_buf) {
        dst_base matches Some(base) ==> transfer::copy_defined(
            transfer::target_of(gpu_buf, base),
            meta.shape,
            meta.dist,
            iproc,
            nproc,
        )
    } else {
        convert::conversion_defined(
            len,
            src_dtype,
            tensor::tensor_dtype(gpu_buf),
            tensor::tensor_dims(gpu_buf),
            meta.shape,
            meta.dist,
            iproc,
            nproc,
        )
    }
}

/// Works out how the buffer of a tensor is filled from the bytes that its file holds for it:
/// where the element types agree, they are copied as they are; else they are cast on the device,
/// and what comes of it is to be copied over the buffer. `dst_base` is where the buffer's
/// storage starts, if it is on a CUDA device.
pub fn try_fill_tensor(
    full_bytes: &[u8],
    gpu_buf: &Tensor,
    dst_base: Option<u64>,
    src_dtype: DType,
    device: &Device,
    iproc: usize,
    nproc: usize,
    meta: &TensorMeta,
) -> (r: Result<Fill, ShardError>)
    requires
        fill_defined(
            full_bytes@.len(),
            *gpu_buf,
            dst_base,
            src_dtype,
            *meta,
            iproc as nat,
            nproc as nat,
        ),
    ensures
        src_dtype == tensor::tensor_dtype(*gpu_buf) ==> match r {
            Ok(Fill::Copy(c)) => transfer::is_copy(
                Ok(c),
                *gpu_buf,
                dst_base,
                meta.shape,
                meta.dist,
                iproc as nat,
                nproc as nat,
            ),
            Ok(Fill::Converted(_)) => false,
            Err(e) => transfer::is_copy(
                Err(e),
                *gpu_buf,
                dst_base,
                meta.shape,
                meta.dist,
                iproc as nat,
                nproc as nat,
            ),
        },
        src_dtype != tensor::tensor_dtype(*gpu_buf) ==> ({
            &&& r is Err ==> r->Err_0 is Candle
            &&& r is Ok ==> r->Ok_0 is Converted
            &&& convert::is_conversion(
                match r {
                    Ok(Fill::Converted(t)) => Some(t),
                    _ => None,
                },
                full_bytes@,
                src_dtype,
                tensor::tensor_dtype(*gpu_buf),
                tensor::tensor_dims(*gpu_buf),
                meta.shape,
                meta.dist,
                iproc as nat,
                nproc as nat,
                *device is Cpu,
            )
        }),
{
    let dst_dtype = gpu_buf.dtype();
    if src_dtype == dst_dtype {
        match pinned_copy_to_gpu(gpu_buf, dst_base, meta, iproc, nproc) {
            Ok(c) => Ok(Fill::Copy(c)),
            Err(e) => Err(e),
        }
    } else {
        match convert::convert(
            full_bytes,
            src_dtype,
            dst_dtype,
            gpu_buf.dims(),
            meta.shape,
            meta.dist,
            iproc,
            nproc,
            device,
        ) {
            Ok(t) => Ok(Fill::Converted(t)),
            Err(e) => Err(ShardError::Candle(e)),
        }
    }
}

/// Tests whether a buffer can be filled.
pub fn fill_is_defined(
    len: usize,
    gpu_buf: &Tensor,
    dst_base: Option<u64>,
    src_dtype: DType,
    meta: &TensorMeta,
    iproc: usize,
    nproc: usize,
) -> (r: bool)
    ensures
        r == fill_defined(
            len as nat,
            *gpu_buf,
            dst_base,
            src_dtype,
            *meta,
            iproc as nat,
            nproc as nat,
        ),
{
    let dst_dtype = gpu_buf.dtype();
    if src_dtype == dst_dtype {
        transfer::copy_is_defined(gpu_buf, dst_base, meta, iproc, nproc)
    } else {
        convert::conversion_is_defined(
            len,
            src_dtype,
            dst_dtype,
            gpu_buf.dims(),
            meta.shape,
            meta.dist,
            iproc,
            nproc,
        )
    }
}

/// The error for a tensor whose buffer could not be filled for the given reason.
pub fn fill_error(name: &str, path: &str, meta: &TensorMeta, reason: String) -> (r: ShardError)
    ensures
        r matches ShardError::FillFailed { name: n, file, start, end, reason: why } && n@ == name@
            && file@ == path::file_label(path@) && (start, end) == meta.data_offsets && why
            == reason,
{
    ShardError::FillFailed {
        name: name.to_owned(),
        file: file_label_of(path),
        start: meta.data_offsets.0,
        end: meta.data_offsets.1,
        reason,
    }
}

/// The error for a tensor that was cast but did not reach its buffer for the given reason.
pub fn converted_copy_error(name: &str, src: &Tensor, dst: &Tensor, reason: String) -> (r:
    ShardError)
    ensures
        r matches ShardError::ConvertedCopyFailed {
            name: n,
            src_dims,
            src_dtype,
            dst_dims,
            dst_dtype,
            reason: why,
        } && n@ == name@ && src_dims@ == tensor::tensor_dims(*src) && src_dtype
            == tensor::tensor_dtype(*src) && dst_dims@ == tensor::tensor_dims(*dst) && dst_dtype
            == tensor::tensor_dtype(*dst) && why == reason,
{
    ShardError::ConvertedCopyFailed {
        name: name.to_owned(),
        src_dims: vstd::slice::slice_to_vec(src.dims()),
        src_dtype: src.dtype(),
        dst_dims: vstd::slice::slice_to_vec(dst.dims()),
        dst_dtype: dst.dtype(),
        reason,
    }
}

} // verus!
