//! An index of all the tensors that a model's weight files hold, and the buffers they are
//! loaded into.

use crate::utils::error::ShardError;
use crate::utils::name_map::NameMap;
use crate::utils::tensor;
use crate::utils::text::{joined, same_text};
use candle_core::{DType, Device, Tensor};
use vstd::prelude::*;

verus! {

/// Shape of a tensor from a safetensor file header: one dimension (such as the scales of a
/// norm) or two (a weight matrix).
#[derive(Debug, Clone, Copy, PartialEq, Eq, Structural)]
pub enum TensorShape {
    D1(usize),
    /// Rows and columns, row-major.
    D2(usize, usize),
}

/// How a tensor is distributed across GPUs.
#[derive(Debug, Clone, Copy, PartialEq, Eq, Structural)]
pub enum Dist {
    /// Each rank has a full copy.
    Replicated,
    /// The output dimension (the first) is split: each rank gets an equal part of the rows.
    ColumnSharded,
    /// The input dimension (the second) is split: each rank gets an equal part of the columns.
    RowSharded,
    /// A linear layer split over the vocabulary: the output dimension is split, and the results
    /// are gathered from all ranks afterwards.
    VocabParallel,
}

/// What is known of a single tensor.
#[derive(Debug)]
pub struct TensorMeta {
    /// The element type by its name in the weight file.
    pub src_dtype: String,
    pub shape: TensorShape,
    /// Where its bytes start and end, counted from the start of the weight file.
    pub data_offsets: (usize, usize),
    pub dist: Dist,
    /// The buffer that was allocated for it, if any.
    pub buffer: Option<Tensor>,
    /// The element type wanted in the buffer, where it differs from that in the file.
    pub dst_dtype: Option<String>,
}

impl Clone for TensorMeta {
    /// Copies what is known of a tensor; the buffer is shared.
    fn clone(&self) -> (r: Self)
        ensures
            r == *self,
    {
        TensorMeta {
            src_dtype: self.src_dtype.clone(),
            shape: self.shape,
            data_offsets: self.data_offsets,
            dist: self.dist,
            buffer: match &self.buffer {
                Some(t) => Some(t.clone()),
                None => None,
            },
            dst_dtype: match &self.dst_dtype {
                Some(s) => Some(s.clone()),
                None => None,
            },
        }
    }
}

/// The names of the tensors that one weight file holds.
#[derive(Debug, Clone)]
pub struct FileTensors {
    pub path: String,
    pub names: Vec<String>,
}

/// All the weights of a model: every tensor by its name, the weight files, and which tensors
/// each file holds.
#[derive(Debug, Clone)]
pub struct TensorIndex {
    pub tensors: NameMap<TensorMeta>,
    pub weight_files: Vec<String>,
    pub file_tensors: Vec<FileTensors>,
    /// Size of the largest weight file in bytes.
    pub max_file_size: usize,
}

/// The element type that a name in a weight file stands for.
pub open spec fn dtype_named(s: Seq<char>) -> Option<DType> {
    if s == "F8_E4M3"@ || s == "F8E4M3"@ {
        Some(DType::F8E4M3)
    } else if s == "BF16"@ {
        Some(DType::BF16)
    } else if s == "F16"@ {
        Some(DType::F16)
    } else if s == "F32"@ {
        Some(DType::F32)
    } else if s == "F64"@ {
        Some(DType::F64)
    } else if s == "F8_E8M0"@ || s == "F8E8M0"@ {
        Some(DType::F8E8M0)
    } else if s == "U8"@ {
        Some(DType::U8)
    } else if s == "U32"@ {
        Some(DType::U32)
    } else if s == "I64"@ {
        Some(DType::I64)
    } else {
        None
    }
}

/// The element types that weight files can name.
pub open spec fn has_name(d: DType) -> bool {
    ||| d == DType::F8E4M3
    ||| d == DType::BF16
    ||| d == DType::F16
    ||| d == DType::F32
    ||| d == DType::F64
    ||| d == DType::F8E8M0
    ||| d == DType::U8
    ||| d == DType::U32
    ||| d == DType::I64
}

/// The name of an element type.
pub open spec fn name_of_dtype(d: DType) -> Seq<char> {
    if d == DType::F8E4M3 {
        "F8_E4M3"@
    } else if d == DType::BF16 {
        "BF16"@
    } else if d == DType::F16 {
        "F16"@
    } else if d == DType::F32 {
        "F32"@
    } else if d == DType::F64 {
        "F64"@
    } else if d == DType::F8E8M0 {
        "F8_E8M0"@
    } else if d == DType::U8 {
        "U8"@
    } else if d == DType::U32 {
        "U32"@
    } else {
        "I64"@
    }
}

/// The element type of a tensor's buffer: the one wanted there, if it is set and known, and else
/// the one in the file.
pub open spec fn buffer_dtype(meta: TensorMeta) -> Option<DType> {
    match meta.dst_dtype {
        Some(s) => match dtype_named(s@) {
            Some(d) => Some(d),
            None => dtype_named(meta.src_dtype@),
        },
        None => dtype_named(meta.src_dtype@),
    }
}

/// The tensors once `tensor` has been put down as the buffer of `name`; a name that the index
/// does not hold changes nothing.
pub open spec fn registered(
    m: Map<Seq<char>, TensorMeta>,
    name: Seq<char>,
    tensor: Tensor,
    dist: Dist,
) -> Map<Seq<char>, TensorMeta> {
    if m.contains_key(name) {
        m.insert(name, TensorMeta { dist, buffer: Some(tensor), ..m[name] })
    } else {
        m
    }
}

/// Only a weight has been put down, with a buffer of zeros.
pub open spec fn weight_only(
    before: Map<Seq<char>, TensorMeta>,
    after: Map<Seq<char>, TensorMeta>,
    w: Seq<char>,
    dims: Seq<usize>,
    dtype: DType,
    dist: Dist,
    device: Device,
) -> bool {
    exists|t: Tensor|
        is_zeros(t, dims, dtype, device) && after == #[trigger] registered(before, w, t, dist)
}

/// A tensor with a storage of its own that was made with zeros.
pub open spec fn is_zeros(t: Tensor, dims: Seq<usize>, dtype: DType, device: Device) -> bool {
    &&& tensor::is_fresh(t, dims, dtype, device is Cpu)
    &&& tensor::made_bytes(t) == tensor::zero_bytes(
        tensor::elem_count(dims) * tensor::elem_size(dtype),
    )
}

impl TensorIndex {
    /// The invariant of an index.
    pub open spec fn wf(&self) -> bool {
        self.tensors.wf()
    }

    /// Everything but the tensors is as in `other`, and the tensors come in the same order.
    pub open spec fn same_files(&self, other: &TensorIndex) -> bool {
        &&& self.weight_files == other.weight_files
        &&& self.file_tensors == other.file_tensors
        &&& self.max_file_size == other.max_file_size
        &&& self.tensors.order() == other.tensors.order()
    }

    /// A buffer of the given dimensions can be made for `name`, if the index holds it: its
    /// element type is known and the size can be counted.
    pub open spec fn allocatable(&self, name: Seq<char>, dims: Seq<usize>) -> bool {
        self.tensors@.contains_key(name) ==> {
            &&& buffer_dtype(self.tensors@[name]) is Some
            &&& tensor::countable(
                dims,
                tensor::elem_size(buffer_dtype(self.tensors@[name])->0),
            )
        }
    }

    /// Reads the name of an element type.
    pub fn parse_dtype(s: &str) -> (r: Option<DType>)
        ensures
            r == dtype_named(s@),
    {
        if same_text(s, "F8_E4M3") || same_text(s, "F8E4M3") {
            Some(DType::F8E4M3)
        } else if same_text(s, "BF16") {
            Some(DType::BF16)
        } else if same_text(s, "F16") {
            Some(DType::F16)
        } else if same_text(s, "F32") {
            Some(DType::F32)
        } else if same_text(s, "F64") {
            Some(DType::F64)
        } else if same_text(s, "F8_E8M0") || same_text(s, "F8E8M0") {
            Some(DType::F8E8M0)
        } else if same_text(s, "U8") {
            Some(DType::U8)
        } else if same_text(s, "U32") {
            Some(DType::U32)
        } else if same_text(s, "I64") {
            Some(DType::I64)
        } else {
            None
        }
    }

    /// Writes the name of an element type, for the types that have one.
    pub fn dtype_to_string(dtype: DType) -> (r: &'static str)
        requires
            has_name(dtype),
        ensures
            r@ == name_of_dtype(dtype),
            dtype_named(r@) == Some(dtype),
    {
        proof {
            law_dtype_names(dtype);
        }
        match dtype {
            DType::F8E4M3 => "F8_E4M3",
            DType::BF16 => "BF16",
            DType::F16 => "F16",
            DType::F32 => "F32",
            DType::F64 => "F64",
            DType::F8E8M0 => "F8_E8M0",
            DType::U8 => "U8",
            DType::U32 => "U32",
            _ => "I64",
        }
    }

    /// Looks up a tensor by its full name.
    pub fn meta(&self, name: &str) -> (r: Option<&TensorMeta>)
        requires
            self.wf(),
        ensures
            match r {
                Some(m) => self.tensors@.contains_key(name@) && *m == self.tensors@[name@],
                None => !self.tensors@.contains_key(name@),
            },
    {
        self.tensors.get(name)
    }

    /// Puts down a buffer and how it is distributed for a tensor of the index.
    pub fn register(&mut self, name: &str, tensor: Tensor, dist: Dist)
        requires
            old(self).wf(),
        ensures
            final(self).wf(),
            final(self).same_files(old(self)),
            final(self).tensors@ == registered(old(self).tensors@, name@, tensor, dist),
    {
        match self.tensors.get_mut(name) {
            Some(meta) => {
                meta.dist = dist;
                meta.buffer = Some(tensor);
            },
            None => {},
        }
    }

    /// Puts down a weight and, for quantized weights, the scales that go with it.
    pub fn register_weight_scale(
        &mut self,
        name: &str,
        weight: Tensor,
        scale: Option<Tensor>,
        dist: Dist,
    )
        requires
            old(self).wf(),
        ensures
            final(self).wf(),
            final(self).same_files(old(self)),
            final(self).tensors@ == ({
                let m = registered(old(self).tensors@, name@, weight, dist);
                match scale {
                    Some(s) => registered(m, name@ + ".weight_scale_inv"@, s, Dist::Replicated),
                    None => m,
                }
            }),
    {
        self.register(name, weight, dist);
        match scale {
            Some(s) => {
                let s_name = joined(name, ".weight_scale_inv");
                self.register(s_name.as_str(), s, Dist::Replicated);
            },
            None => {},
        }
    }

    /// The element type for the buffer of a tensor.
    pub fn target_dtype(meta: &TensorMeta) -> (r: Option<DType>)
        ensures
            r == buffer_dtype(*meta),
    {
        let wanted = match &meta.dst_dtype {
            Some(s) => Self::parse_dtype(s.as_str()),
            None => None,
        };
        match wanted {
            Some(d) => Some(d),
            None => Self::parse_dtype(meta.src_dtype.as_str()),
        }
    }

    /// Tests whether [`TensorIndex::alloc_zeros`] can be asked for a buffer: the element type of
    /// the tensor is known and the size of the buffer can be counted.
    pub fn can_allocate(&self, name: &str, dims: &[usize]) -> (r: bool)
        requires
            self.wf(),
        ensures
            r == self.allocatable(name@, dims@),
    {
        match self.tensors.get(name) {
            Some(meta) => match Self::target_dtype(meta) {
                Some(dtype) => tensor::is_countable(dims, dtype.size_in_bytes()),
                None => false,
            },
            None => true,
        }
    }

    /// Allocates a tensor of zeros whose element type the index knows. The tensor is not put
    /// down as the buffer: that is for the caller to do.
    pub fn alloc_zeros(&mut self, name: &str, local_shape: &[usize], device: &Device) -> (r: Result<
        Tensor,
        ShardError,
    >)
        requires
            old(self).wf(),
            old(self).allocatable(name@, local_shape@),
        ensures
            *final(self) == *old(self),
            r matches Err(ShardError::NotFound { name: n }) ==> n@ == name@,
            r is Err && r->Err_0 is NotFound <==> !old(self).tensors@.contains_key(name@),
            r is Err ==> r->Err_0 is NotFound || r->Err_0 is Candle,
            old(self).tensors@.contains_key(name@) ==> ({
                let dtype = buffer_dtype(old(self).tensors@[name@])->0;
                &&& r matches Ok(t) ==> is_zeros(t, local_shape@, dtype, *device)
                &&& *device is Cpu ==> (r is Ok <==> tensor::computes(dtype))
            }),
    {
        match self.tensors.get(name) {
            None => Err(ShardError::NotFound { name: name.to_owned() }),
            Some(meta) => {
                let dtype = Self::target_dtype(meta).unwrap();
                match tensor::zeros(local_shape, dtype, device) {
                    Ok(t) => Ok(t.into_tensor()),
                    Err(e) => Err(ShardError::Candle(e)),
                }
            },
        }
    }

    /// Allocates the full weight of a linear layer on every rank, with its bias where one is
    /// wanted and the index holds it.
    pub fn alloc_replicated_linear(
        &mut self,
        prefix: &str,
        out_dim: usize,
        in_dim: usize,
        has_bias: bool,
        device: &Device,
    ) -> (r: Result<(Tensor, Option<Tensor>), ShardError>)
        requires
            old(self).wf(),
            old(self).allocatable(prefix@ + ".weight"@, seq![out_dim, in_dim]),
            has_bias ==> old(self).allocatable(prefix@ + ".bias"@, seq![out_dim]),
        ensures
            final(self).wf(),
            final(self).same_files(old(self)),
            ({
                let w = prefix@ + ".weight"@;
                let b = prefix@ + ".bias"@;
                let m = old(self).tensors@;
                let w_dtype = buffer_dtype(m[w])->0;
                let b_dtype = buffer_dtype(m[b])->0;
                let biased = has_bias && m.contains_key(b);
                &&& !m.contains_key(w) ==> r is Err
                &&& m.contains_key(w) && *device is Cpu ==> (r is Ok <==> tensor::computes(w_dtype)
                    && (biased ==> tensor::computes(b_dtype)))
                &&& match r {
                    Ok((weight, bias)) => {
                        &&& is_zeros(weight, seq![out_dim, in_dim], w_dtype, *device)
                        &&& bias is Some <==> biased
                        &&& match bias {
                            Some(t) => {
                                &&& is_zeros(t, seq![out_dim], b_dtype, *device)
                                &&& final(self).tensors@ == registered(
                                    registered(m, w, weight, Dist::Replicated),
                                    b,
                                    t,
                                    Dist::Replicated,
                                )
                            },
                            None => final(self).tensors@ == registered(
                                m,
                                w,
                                weight,
                                Dist::Replicated,
                            ),
                        }
                    },
                    Err(ShardError::NotFound { name }) => {
                        &&& name@ == w
                        &&& !m.contains_key(w)
                        &&& final(self).tensors@ == m
                    },
                    Err(e) => {
                        &&& e is Candle
                        &&& m.contains_key(w)
                        &&& final(self).tensors@ == m || (biased && weight_only(
                            m,
                            final(self).tensors@,
                            w,
                            seq![out_dim, in_dim],
                            w_dtype,
                            Dist::Replicated,
                            *device,
                        ))
                    },
                }
            }),
    {
        let w_name = joined(prefix, ".weight");
        let dims: [usize; 2] = [out_dim, in_dim];
        assert(dims@ =~= seq![out_dim, in_dim]);
        let weight = match self.alloc_zeros(w_name.as_str(), dims.as_slice(), device) {
            Ok(t) => t,
            Err(e) => {
                return Err(e);
            },
        };
        self.register(w_name.as_str(), weight.clone(), Dist::Replicated);
        let bias = if has_bias {
            let b_name = joined(prefix, ".bias");
            if self.tensors.contains_key(b_name.as_str()) {
                let b_dims: [usize; 1] = [out_dim];
                assert(b_dims@ =~= seq![out_dim]);
                let b = match self.alloc_zeros(b_name.as_str(), b_dims.as_slice(), device) {
                    Ok(t) => t,
                    Err(e) => {
                        return Err(e);
                    },
                };
                self.register(b_name.as_str(), b.clone(), Dist::Replicated);
                Some(b)
            } else {
                None
            }
        } else {
            None
        };
        Ok((weight, bias))
    }

    /// Allocates this rank's part of a weight whose rows are split over the ranks.
    pub fn alloc_column_sharded(
        &mut self,
        prefix: &str,
        global_out: usize,
        global_in: usize,
        _iproc: usize,
        nproc: usize,
        device: &Device,
    ) -> (r: Result<Tensor, ShardError>)
        requires
            old(self).wf(),
            nproc > 0,
            old(self).allocatable(prefix@ + ".weight"@, seq![global_out / nproc, global_in]),
        ensures
            final(self).wf(),
            final(self).same_files(old(self)),
            sharded_outcome(
                old(self).tensors@,
                final(self).tensors@,
                prefix@ + ".weight"@,
                seq![global_out / nproc, global_in],
                Dist::ColumnSharded,
                *device,
                r,
            ),
    {
        let w_name = joined(prefix, ".weight");
        let local_out: usize = global_out / nproc;
        let dims: [usize; 2] = [local_out, global_in];
        assert(dims@ =~= seq![local_out, global_in]);
        let t = match self.alloc_zeros(w_name.as_str(), dims.as_slice(), device) {
            Ok(t) => t,
            Err(e) => {
                return Err(e);
            },
        };
        self.register(w_name.as_str(), t.clone(), Dist::ColumnSharded);
        Ok(t)
    }

    /// Allocates this rank's part of a weight whose columns are split over the ranks.
    pub fn alloc_row_sharded(
        &mut self,
        prefix: &str,
        global_out: usize,
        global_in: usize,
        _iproc: usize,
        nproc: usize,
        device: &Device,
    ) -> (r: Result<Tensor, ShardError>)
        requires
            old(self).wf(),
            nproc > 0,
            old(self).allocatable(prefix@ + ".weight"@, seq![global_out, global_in / nproc]),
        ensures
            final(self).wf(),
            final(self).same_files(old(self)),
            sharded_outcome(
                old(self).tensors@,
                final(self).tensors@,
                prefix@ + ".weight"@,
                seq![global_out, global_in / nproc],
                Dist::RowSharded,
                *device,
                r,
            ),
    {
        let w_name = joined(prefix, ".weight");
        let local_in: usize = global_in / nproc;
        let dims: [usize; 2] = [global_out, local_in];
        assert(dims@ =~= seq![global_out, local_in]);
        let t = match self.alloc_zeros(w_name.as_str(), dims.as_slice(), device) {
            Ok(t) => t,
            Err(e) => {
                return Err(e);
            },
        };
        self.register(w_name.as_str(), t.clone(), Dist::RowSharded);
        Ok(t)
    }

    /// Allocates a weight and, where the index holds scales for it, the scales.
    pub fn alloc_weight_scale(
        &mut self,
        name: &str,
        local_shape: &[usize],
        block_size: &[usize],
        dist: Dist,
        device: &Device,
    ) -> (r: Result<(Tensor, Option<Tensor>), ShardError>)
        requires
            old(self).wf(),
            old(self).allocatable(name@ + ".weight"@, local_shape@),
            old(self).scale_allocatable(name@, local_shape@, block_size@, dist),
        ensures
            final(self).wf(),
            final(self).same_files(old(self)),
            ({
                let w = name@ + ".weight"@;
                let s = name@ + ".weight_scale_inv"@;
                let m = old(self).tensors@;
                let w_dtype = buffer_dtype(m[w])->0;
                let s_dims = scale_dims(m[s].shape, local_shape@, block_size@, dist);
                &&& !m.contains_key(w) ==> r is Err
                &&& m.contains_key(w) && *device is Cpu ==> (r is Ok <==> tensor::computes(w_dtype))
                &&& match r {
                    Ok((weight, scale)) => {
                        &&& is_zeros(weight, local_shape@, w_dtype, *device)
                        &&& scale is Some <==> m.contains_key(s)
                        &&& match scale {
                            Some(t) => {
                                &&& is_zeros(t, s_dims, DType::F32, *device)
                                &&& final(self).tensors@ == registered(
                                    registered(m, w, weight, dist),
                                    s,
                                    t,
                                    dist,
                                )
                            },
                            None => final(self).tensors@ == registered(m, w, weight, dist),
                        }
                    },
                    Err(ShardError::NotFound { name: n }) => {
                        &&& n@ == w
                        &&& !m.contains_key(w)
                        &&& final(self).tensors@ == m
                    },
                    Err(e) => {
                        &&& e is Candle
                        &&& m.contains_key(w)
                        &&& final(self).tensors@ == m || (m.contains_key(s) && weight_only(
                            m,
                            final(self).tensors@,
                            w,
                            local_shape@,
                            w_dtype,
                            dist,
                            *device,
                        ))
                    },
                }
            }),
    {
        let w_name = joined(name, ".weight");
        let weight = match self.alloc_zeros(w_name.as_str(), local_shape, device) {
            Ok(t) => t,
            Err(e) => {
                return Err(e);
            },
        };
        self.register(w_name.as_str(), weight.clone(), dist);
        let s_name = joined(name, ".weight_scale_inv");
        let shape = match self.tensors.get(s_name.as_str()) {
            Some(meta) => meta.shape,
            None => {
                return Ok((weight, None));
            },
        };
        let made = if dist == Dist::Replicated {
            match shape {
                TensorShape::D2(r, c) => {
                    let dims: [usize; 2] = [r, c];
                    assert(dims@ =~= seq![r, c]);
                    tensor::zeros(dims.as_slice(), DType::F32, device)
                },
                TensorShape::D1(_) => tensor::zeros(local_shape, DType::F32, device),
            }
        } else {
            let sn: usize = (local_shape[0] + block_size[0] - 1) / block_size[0];
            let sk: usize = (local_shape[1] + block_size[1] - 1) / block_size[1];
            let dims: [usize; 2] = [sn, sk];
            assert(dims@ =~= seq![sn, sk]);
            tensor::zeros(dims.as_slice(), DType::F32, device)
        };
        match made {
            Ok(scale) => {
                let scale = scale.into_tensor();
                self.register(s_name.as_str(), scale.clone(), dist);
                Ok((weight, Some(scale)))
            },
            Err(e) => Err(ShardError::Candle(e)),
        }
    }

    /// Tests whether [`TensorIndex::alloc_weight_scale`] can be asked for scales.
    pub fn can_allocate_scale(
        &self,
        name: &str,
        local_shape: &[usize],
        block_size: &[usize],
        dist: Dist,
    ) -> (r: bool)
        requires
            self.wf(),
        ensures
            r == self.scale_allocatable(name@, local_shape@, block_size@, dist),
    {
        let w_name = joined(name, ".weight");
        let s_name = joined(name, ".weight_scale_inv");
        if !self.tensors.contains_key(w_name.as_str()) {
            return true;
        }
        let shape = match self.tensors.get(s_name.as_str()) {
            Some(meta) => meta.shape,
            None => {
                return true;
            },
        };
        if dist == Dist::Replicated {
            match shape {
                TensorShape::D2(r, c) => {
                    let dims: [usize; 2] = [r, c];
                    assert(dims@ =~= seq![r, c]);
                    tensor::is_countable(dims.as_slice(), 4)
                },
                TensorShape::D1(_) => tensor::is_countable(local_shape, 4),
            }
        } else {
            if block_size.len() != 2 || local_shape.len() < 2 {
                return false;
            }
            let by: usize = block_size[0];
            let bx: usize = block_size[1];
            if by == 0 || bx == 0 || local_shape[0] > usize::MAX - by || local_shape[1] > usize::MAX
                - bx {
                return false;
            }
            let sn: usize = (local_shape[0] + by - 1) / by;
            let sk: usize = (local_shape[1] + bx - 1) / bx;
            let dims: [usize; 2] = [sn, sk];
            assert(dims@ =~= seq![sn, sk]);
            tensor::is_countable(dims.as_slice(), 4)
        }
    }
}

/// What a sharded allocation comes to: without such a tensor an error and no change, with a
/// tensor from candle its registration, and with an error from candle no change.
pub open spec fn sharded_outcome(
    before: Map<Seq<char>, TensorMeta>,
    after: Map<Seq<char>, TensorMeta>,
    w: Seq<char>,
    dims: Seq<usize>,
    dist: Dist,
    device: Device,
    r: Result<Tensor, ShardError>,
) -> bool {
    let dtype = buffer_dtype(before[w])->0;
    &&& !before.contains_key(w) ==> r is Err
    &&& before.contains_key(w) && device is Cpu ==> (r is Ok <==> tensor::computes(dtype))
    &&& match r {
        Ok(t) => is_zeros(t, dims, dtype, device) && after == registered(before, w, t, dist),
        Err(ShardError::NotFound { name }) => {
            &&& name@ == w
            &&& !before.contains_key(w)
            &&& after == before
        },
        Err(e) => e is Candle && before.contains_key(w) && after == before,
    }
}

/// How many blocks of `b` it takes to cover `a`.
pub open spec fn blocks(a: usize, b: usize) -> usize
    recommends
        b > 0,
{
    ((a + b - 1) / b as int) as usize
}

/// The dimensions of the scales for a weight. On every rank in full, they are those of the
/// file; for a part of the weight there is one scale for each block of it.
pub open spec fn scale_dims(
    shape: TensorShape,
    local: Seq<usize>,
    block: Seq<usize>,
    dist: Dist,
) -> Seq<usize> {
    if dist == Dist::Replicated {
        match shape {
            TensorShape::D2(r, c) => seq![r, c],
            TensorShape::D1(_) => local,
        }
    } else {
        seq![blocks(local[0], block[0]), blocks(local[1], block[1])]
    }
}

impl TensorIndex {
    /// Scales for a weight can be allocated, if the index holds both: a split weight has two
    /// dimensions and blocks of two, and the size can be counted.
    pub open spec fn scale_allocatable(
        &self,
        name: Seq<char>,
        local: Seq<usize>,
        block: Seq<usize>,
        dist: Dist,
    ) -> bool {
        let s = name + ".weight_scale_inv"@;
        self.tensors@.contains_key(name + ".weight"@) && self.tensors@.contains_key(s) ==> {
            &&& dist != Dist::Replicated ==> {
                &&& block.len() == 2
                &&& local.len() >= 2
                &&& 0 < block[0]
                &&& 0 < block[1]
                &&& local[0] + block[0] <= usize::MAX
                &&& local[1] + block[1] <= usize::MAX
            }
            &&& tensor::countable(scale_dims(self.tensors@[s].shape, local, block, dist), 4)
        }
    }
}

/// The name of an element type is read back as that type.
pub proof fn law_dtype_names(d: DType)
    requires
        has_name(d),
    ensures
        dtype_named(name_of_dtype(d)) == Some(d),
{
    reveal_strlit("F8_E4M3");
    reveal_strlit("F8E4M3");
    reveal_strlit("BF16");
    reveal_strlit("F16");
    reveal_strlit("F32");
    reveal_strlit("F64");
    reveal_strlit("F8_E8M0");
    reveal_strlit("F8E8M0");
    reveal_strlit("U8");
    reveal_strlit("U32");
    reveal_strlit("I64");
    assert("F8_E4M3"@[3] == 'E' && "F8_E4M3"@[4] == '4');
    assert("F8_E8M0"@[4] == '8');
    assert("F8E4M3"@.len() == 6);
    assert("F8E8M0"@.len() == 6);
    assert("BF16"@.len() == 4);
    assert("F16"@[1] == '1');
    assert("F32"@[0] == 'F' && "F32"@[1] == '3');
    assert("F64"@[1] == '6');
    assert("U8"@.len() == 2);
    assert("U32"@[0] == 'U');
    assert("I64"@[0] == 'I');
}

} // verus!
