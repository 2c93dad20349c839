//! What can go wrong while weights are allocated and loaded.

use crate::utils::text;
use crate::utils::text::{bracketed_of, decimal_of};
use candle_core::DType;
use vstd::prelude::*;
use vstd::string::*;

verus! {

/// An error of this library, or one that candle reported. What a driver or an operating system
/// reported is kept as the text that came with it.
#[derive(Debug)]
pub enum ShardError {
    /// The index holds no tensor of this name.
    NotFound { name: String },
    /// The index holds no weight for the output layer.
    LmHeadNotFound,
    /// A buffer to copy into is not on a CUDA device.
    BufferNotOnCuda,
    /// A buffer to copy into has neither one nor two dimensions.
    UnexpectedRank { rank: usize },
    /// The driver refused a copy of rows.
    RowCopyFailed { rows: usize, cols: usize, code: String },
    /// The driver refused a copy of one run of elements.
    FlatCopyFailed { count: usize, code: String },
    /// A tensor to copy from is not on a CUDA device.
    SourceNotOnCuda,
    /// A tensor to copy to is not on a CUDA device.
    TargetNotOnCuda,
    /// The driver refused a copy from one place on a device to another.
    DeviceCopyFailed { code: String },
    /// A tensor that was cast did not reach its buffer.
    ConvertedCopyFailed {
        name: String,
        src_dims: Vec<usize>,
        src_dtype: DType,
        dst_dims: Vec<usize>,
        dst_dtype: DType,
        reason: String,
    },
    /// The driver refused to give out page-locked memory.
    HostAlloc { size: usize, code: String },
    /// A weight file could not be opened.
    OpenFailed { path: String, reason: String },
    /// A weight file could not be read.
    ReadFailed { path: String, reason: String },
    /// The bytes of a weight file could not be sent to the other ranks.
    BroadcastFailed { file: String, reason: String },
    /// The buffer of a tensor could not be filled.
    FillFailed { name: String, file: String, start: usize, end: usize, reason: String },
    /// Experts are quantized in a way that buffers cannot be laid out for.
    MoeQuantUnsupported,
    /// Experts are not quantized, and buffers can only be laid out for quantized ones.
    MoeNotQuantized,
    /// An index could not be turned into bytes.
    Serialize(bincode::Error),
    /// Bytes could not be turned into an index.
    Deserialize(bincode::Error),
    /// A tensor of an index that arrived is split in a way that there is none of.
    UnknownDist { tag: u32 },
    /// An operation on tensors failed.
    Candle(candle_core::Error),
}

/// The name of an element type in messages.
pub open spec fn dtype_label(d: DType) -> Seq<char> {
    match d {
        DType::U8 => "U8"@,
        DType::U32 => "U32"@,
        DType::I16 => "I16"@,
        DType::I32 => "I32"@,
        DType::I64 => "I64"@,
        DType::BF16 => "BF16"@,
        DType::F16 => "F16"@,
        DType::F32 => "F32"@,
        DType::F64 => "F64"@,
        DType::F8E4M3 => "F8E4M3"@,
        DType::F6E2M3 => "F6E2M3"@,
        DType::F6E3M2 => "F6E3M2"@,
        DType::F4 => "F4"@,
        _ => "F8E8M0"@,
    }
}

/// Writes the name of an element type.
pub fn dtype_label_of(d: DType) -> (r: &'static str)
    ensures
        r@ == dtype_label(d),
{
    match d {
        DType::U8 => "U8",
        DType::U32 => "U32",
        DType::I16 => "I16",
        DType::I32 => "I32",
        DType::I64 => "I64",
        DType::BF16 => "BF16",
        DType::F16 => "F16",
        DType::F32 => "F32",
        DType::F64 => "F64",
        DType::F8E4M3 => "F8E4M3",
        DType::F6E2M3 => "F6E2M3",
        DType::F6E3M2 => "F6E3M2",
        DType::F4 => "F4",
        _ => "F8E8M0",
    }
}

impl ShardError {
    /// The text of an error of this library; errors of candle and bincode have texts of their own.
    pub open spec fn text(&self) -> Option<Seq<char>> {
        match self {
            ShardError::NotFound { name } => Some("TensorIndex: '"@ + name@ + "' not found"@),
            ShardError::LmHeadNotFound => Some("lm_head.weight not found in TensorIndex"@),
            ShardError::BufferNotOnCuda => Some("pinned_copy_to_gpu: dst not on CUDA device"@),
            ShardError::UnexpectedRank { rank } => Some(
                "pinned_copy_to_gpu: unexpected "@ + text::decimal(*rank as nat) + "D tensor"@,
            ),
            ShardError::RowCopyFailed { rows, cols, code } => Some(
                "cuMemcpy2DAsync_v2 failed (rows="@ + text::decimal(*rows as nat) + ", cols="@
                    + text::decimal(*cols as nat) + "): err="@ + code@,
            ),
            ShardError::FlatCopyFailed { count, code } => Some(
                "cuMemcpyHtoDAsync_v2 failed (count="@ + text::decimal(*count as nat) + "): err="@
                    + code@,
            ),
            ShardError::SourceNotOnCuda => Some("copy_device_to_device: src not on CUDA"@),
            ShardError::TargetNotOnCuda => Some("copy_device_to_device: dst not on CUDA"@),
            ShardError::DeviceCopyFailed { code } => Some("cuMemcpyDtoDAsync_v2 failed: "@ + code@),
            ShardError::ConvertedCopyFailed {
                name,
                src_dims,
                src_dtype,
                dst_dims,
                dst_dtype,
                reason,
            } => Some(
                "dtod copy failed for '"@ + name@ + "' (src_t shape="@ + text::bracketed(src_dims@)
                    + " dtype="@ + dtype_label(*src_dtype) + ", dst shape="@ + text::bracketed(
                    dst_dims@,
                ) + " dtype="@ + dtype_label(*dst_dtype) + "): "@ + reason@,
            ),
            ShardError::HostAlloc { size, code } => Some(
                "cuMemHostAlloc("@ + text::decimal(*size as nat) + "): err="@ + code@,
            ),
            ShardError::OpenFailed { path, reason } => Some("open "@ + path@ + ": "@ + reason@),
            ShardError::ReadFailed { path, reason } => Some("read "@ + path@ + ": "@ + reason@),
            ShardError::BroadcastFailed { file, reason } => Some(
                "bcast "@ + file@ + ": "@ + reason@,
            ),
            ShardError::FillFailed { name, file, start, end, reason } => Some(
                "Error filling tensor '"@ + name@ + "' from "@ + file@ + " (offset "@
                    + text::decimal(*start as nat) + ".."@ + text::decimal(*end as nat) + "): "@
                    + reason@,
            ),
            ShardError::MoeQuantUnsupported => Some(
                "MoE non-FP8 quant not supported in alloc path yet"@,
            ),
            ShardError::MoeNotQuantized => Some(
                "MoE without quant config not supported in alloc path"@,
            ),
            ShardError::UnknownDist { tag } => Some(
                "bincode deserialize: invalid value: integer `"@ + text::decimal(*tag as nat)
                    + "`, expected variant index 0 <= i < 4"@,
            ),
            ShardError::Serialize(_) | ShardError::Deserialize(_) | ShardError::Candle(_) => None,
        }
    }

    /// Writes the message of an error of this library.
    pub fn message(&self) -> (r: Option<String>)
        ensures
            r is Some == self.text() is Some,
            r matches Some(s) ==> s@ == self.text()->0,
    {
        let mut s: String;
        match self {
            ShardError::NotFound { name } => {
                s = "TensorIndex: '".to_owned();
                s.append(name.as_str());
                s.append("' not found");
            },
            ShardError::LmHeadNotFound => {
                s = "lm_head.weight not found in TensorIndex".to_owned();
            },
            ShardError::BufferNotOnCuda => {
                s = "pinned_copy_to_gpu: dst not on CUDA device".to_owned();
            },
            ShardError::UnexpectedRank { rank } => {
                s = "pinned_copy_to_gpu: unexpected ".to_owned();
                s.append(decimal_of(*rank).as_str());
                s.append("D tensor");
            },
            ShardError::RowCopyFailed { rows, cols, code } => {
                s = "cuMemcpy2DAsync_v2 failed (rows=".to_owned();
                s.append(decimal_of(*rows).as_str());
                s.append(", cols=");
                s.append(decimal_of(*cols).as_str());
                s.append("): err=");
                s.append(code.as_str());
            },
            ShardError::FlatCopyFailed { count, code } => {
                s = "cuMemcpyHtoDAsync_v2 failed (count=".to_owned();
                s.append(decimal_of(*count).as_str());
                s.append("): err=");
                s.append(code.as_str());
            },
            ShardError::SourceNotOnCuda => {
                s = "copy_device_to_device: src not on CUDA".to_owned();
            },
            ShardError::TargetNotOnCuda => {
                s = "copy_device_to_device: dst not on CUDA".to_owned();
            },
            ShardError::DeviceCopyFailed { code } => {
                s = "cuMemcpyDtoDAsync_v2 failed: ".to_owned();
                s.append(code.as_str());
            },
            ShardError::ConvertedCopyFailed {
                name,
                src_dims,
                src_dtype,
                dst_dims,
                dst_dtype,
                reason,
            } => {
                s = "dtod copy failed for '".to_owned();
                s.append(name.as_str());
                s.append("' (src_t shape=");
                s.append(bracketed_of(src_dims.as_slice()).as_str());
                s.append(" dtype=");
                s.append(dtype_label_of(*src_dtype));
                s.append(", dst shape=");
                s.append(bracketed_of(dst_dims.as_slice()).as_str());
                s.append(" dtype=");
                s.append(dtype_label_of(*dst_dtype));
                s.append("): ");
                s.append(reason.as_str());
            },
            ShardError::HostAlloc { size, code } => {
                s = "cuMemHostAlloc(".to_owned();
                s.append(decimal_of(*size).as_str());
                s.append("): err=");
                s.append(code.as_str());
            },
            ShardError::OpenFailed { path, reason } => {
                s = "open ".to_owned();
                s.append(path.as_str());
                s.append(": ");
                s.append(reason.as_str());
            },
            ShardError::ReadFailed { path, reason } => {
                s = "read ".to_owned();
                s.append(path.as_str());
                s.append(": ");
                s.append(reason.as_str());
            },
            ShardError::BroadcastFailed { file, reason } => {
                s = "bcast ".to_owned();
                s.append(file.as_str());
                s.append(": ");
                s.append(reason.as_str());
            },
            ShardError::FillFailed { name, file, start, end, reason } => {
                s = "Error filling tensor '".to_owned();
                s.append(name.as_str());
                s.append("' from ");
                s.append(file.as_str());
                s.append(" (offset ");
                s.append(decimal_of(*start).as_str());
                s.append("..");
                s.append(decimal_of(*end).as_str());
                s.append("): ");
                s.append(reason.as_str());
            },
            ShardError::MoeQuantUnsupported => {
                s = "MoE non-FP8 quant not supported in alloc path yet".to_owned();
            },
            ShardError::MoeNotQuantized => {
                s = "MoE without quant config not supported in alloc path".to_owned();
            },
            ShardError::UnknownDist { tag } => {
                s = "bincode deserialize: invalid value: integer `".to_owned();
                s.append(decimal_of(*tag as usize).as_str());
                s.append("`, expected variant index 0 <= i < 4");
            },
            ShardError::Serialize(_) | ShardError::Deserialize(_) | ShardError::Candle(_) => {
                return None;
            },
        }
        Some(s)
    }
}

} // verus!
