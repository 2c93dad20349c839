//! What errors tell.

use crate::utils::error;
use crate::utils::error::ShardError;
use crate::utils::path;
use crate::utils::tensor;
use crate::utils::tensor_index::TensorMeta;
use crate::utils::text;
use crate::utils::weight_loader::{converted_copy_error, fill_error};
use candle_core::Tensor;
use vstd::prelude::*;

verus! {

/// A message that ends with the given text.
pub open spec fn ends_with(r: Option<String>, end: Seq<char>) -> bool {
    r matches Some(s) && s@.len() >= end.len() && s@.skip(s@.len() - end.len()) == end
}

/// A message that starts with the given text.
pub open spec fn starts_with(r: Option<String>, start: Seq<char>) -> bool {
    r matches Some(s) && s@.len() >= start.len() && s@.take(start.len() as int) == start
}

proof fn lemma_ends(a: Seq<char>, b: Seq<char>)
    ensures
        (a + b).skip((a + b).len() - b.len()) == b,
        (a + b).take(a.len() as int) == a,
{
    assert((a + b).skip((a + b).len() - b.len()) =~= b);
    assert((a + b).take(a.len() as int) =~= a);
}

/// Errors of this library have a message; those of candle and bincode have texts of their own.
pub proof fn law_has_message(e: ShardError, r: Option<String>)
    requires
        call_ensures(ShardError::message, (&e,), r),
    ensures
        r is None <==> e is Serialize || e is Deserialize || e is Candle,
{
}

/// What a driver or an operating system reported comes at the end of the message, and before it
/// what was tried.
pub proof fn law_reason_is_told(e: ShardError, r: Option<String>)
    requires
        call_ensures(ShardError::message, (&e,), r),
    ensures
        match e {
            ShardError::RowCopyFailed { rows, cols, code } => ends_with(r, code@) && starts_with(
                r,
                "cuMemcpy2DAsync_v2 failed (rows="@ + text::decimal(rows as nat) + ", cols="@
                    + text::decimal(cols as nat) + "): err="@,
            ) && r->0@.len() == ("cuMemcpy2DAsync_v2 failed (rows="@ + text::decimal(rows as nat)
                + ", cols="@ + text::decimal(cols as nat) + "): err="@).len() + code@.len(),
            ShardError::FlatCopyFailed { count, code } => ends_with(r, code@) && starts_with(
                r,
                "cuMemcpyHtoDAsync_v2 failed (count="@ + text::decimal(count as nat) + "): err="@,
            ) && r->0@.len() == ("cuMemcpyHtoDAsync_v2 failed (count="@ + text::decimal(
                count as nat,
            ) + "): err="@).len() + code@.len(),
            ShardError::DeviceCopyFailed { code } => ends_with(r, code@) && starts_with(
                r,
                "cuMemcpyDtoDAsync_v2 failed: "@,
            ) && r->0@.len() == "cuMemcpyDtoDAsync_v2 failed: "@.len() + code@.len(),
            ShardError::HostAlloc { size, code } => ends_with(r, code@) && starts_with(
                r,
                "cuMemHostAlloc("@ + text::decimal(size as nat) + "): err="@,
            ) && r->0@.len() == ("cuMemHostAlloc("@ + text::decimal(size as nat)
                + "): err="@).len() + code@.len(),
            ShardError::OpenFailed { path, reason } => ends_with(r, reason@) && starts_with(
                r,
                "open "@ + path@ + ": "@,
            ) && r->0@.len() == ("open "@ + path@ + ": "@).len() + reason@.len(),
            ShardError::ReadFailed { path, reason } => ends_with(r, reason@) && starts_with(
                r,
                "read "@ + path@ + ": "@,
            ) && r->0@.len() == ("read "@ + path@ + ": "@).len() + reason@.len(),
            ShardError::BroadcastFailed { file, reason } => ends_with(r, reason@) && starts_with(
                r,
                "bcast "@ + file@ + ": "@,
            ) && r->0@.len() == ("bcast "@ + file@ + ": "@).len() + reason@.len(),
            ShardError::FillFailed { name, file, start, end, reason } => ends_with(r, reason@)
                && starts_with(
                r,
                "Error filling tensor '"@ + name@ + "' from "@ + file@ + " (offset "@
                    + text::decimal(start as nat) + ".."@ + text::decimal(end as nat) + "): "@,
            ) && r->0@.len() == ("Error filling tensor '"@ + name@ + "' from "@ + file@
                + " (offset "@ + text::decimal(start as nat) + ".."@ + text::decimal(end as nat)
                + "): "@).len() + reason@.len(),
            ShardError::NotFound { name } => ends_with(r, "' not found"@) && starts_with(
                r,
                "TensorIndex: '"@ + name@,
            ) && r->0@.len() == ("TensorIndex: '"@ + name@).len() + "' not found"@.len(),
            ShardError::UnexpectedRank { rank } => ends_with(r, "D tensor"@) && starts_with(
                r,
                "pinned_copy_to_gpu: unexpected "@ + text::decimal(rank as nat),
            ) && r->0@.len() == ("pinned_copy_to_gpu: unexpected "@ + text::decimal(
                rank as nat,
            )).len() + "D tensor"@.len(),
            _ => true,
        },
{
    match e {
        ShardError::RowCopyFailed { rows, cols, code } => {
            lemma_ends(
                "cuMemcpy2DAsync_v2 failed (rows="@ + text::decimal(rows as nat) + ", cols="@
                    + text::decimal(cols as nat) + "): err="@,
                code@,
            );
        },
        ShardError::FlatCopyFailed { count, code } => {
            lemma_ends(
                "cuMemcpyHtoDAsync_v2 failed (count="@ + text::decimal(count as nat) + "): err="@,
                code@,
            );
        },
        ShardError::DeviceCopyFailed { code } => {
            lemma_ends("cuMemcpyDtoDAsync_v2 failed: "@, code@);
        },
        ShardError::HostAlloc { size, code } => {
            lemma_ends("cuMemHostAlloc("@ + text::decimal(size as nat) + "): err="@, code@);
        },
        ShardError::OpenFailed { path, reason } => {
            lemma_ends("open "@ + path@ + ": "@, reason@);
        },
        ShardError::ReadFailed { path, reason } => {
            lemma_ends("read "@ + path@ + ": "@, reason@);
        },
        ShardError::BroadcastFailed { file, reason } => {
            lemma_ends("bcast "@ + file@ + ": "@, reason@);
        },
        ShardError::FillFailed { name, file, start, end, reason } => {
            lemma_ends(
                "Error filling tensor '"@ + name@ + "' from "@ + file@ + " (offset "@
                    + text::decimal(start as nat) + ".."@ + text::decimal(end as nat) + "): "@,
                reason@,
            );
        },
        ShardError::NotFound { name } => {
            lemma_ends("TensorIndex: '"@ + name@, "' not found"@);
        },
        ShardError::UnexpectedRank { rank } => {
            lemma_ends(
                "pinned_copy_to_gpu: unexpected "@ + text::decimal(rank as nat),
                "D tensor"@,
            );
        },
        _ => {},
    }
}

/// What is told where there is nothing to report, and of a cast tensor that did not reach its
/// buffer: the dimensions and types of both.
pub proof fn law_fixed_messages(e: ShardError, r: Option<String>)
    requires
        call_ensures(ShardError::message, (&e,), r),
    ensures
        e is LmHeadNotFound ==> r is Some && r->0@ == "lm_head.weight not found in TensorIndex"@,
        e is BufferNotOnCuda ==> r is Some && r->0@
            == "pinned_copy_to_gpu: dst not on CUDA device"@,
        e is SourceNotOnCuda ==> r is Some && r->0@ == "copy_device_to_device: src not on CUDA"@,
        e is TargetNotOnCuda ==> r is Some && r->0@ == "copy_device_to_device: dst not on CUDA"@,
        e is MoeQuantUnsupported ==> r is Some && r->0@
            == "MoE non-FP8 quant not supported in alloc path yet"@,
        e is MoeNotQuantized ==> r is Some && r->0@
            == "MoE without quant config not supported in alloc path"@,
        e matches ShardError::UnknownDist { tag } ==> r is Some && r->0@
            == "bincode deserialize: invalid value: integer `"@ + text::decimal(tag as nat)
            + "`, expected variant index 0 <= i < 4"@,
        e matches ShardError::ConvertedCopyFailed {
            name,
            src_dims,
            src_dtype,
            dst_dims,
            dst_dtype,
            reason,
        } ==> r is Some && r->0@ == "dtod copy failed for '"@ + name@ + "' (src_t shape="@
            + text::bracketed(src_dims@) + " dtype="@ + error::dtype_label(src_dtype)
            + ", dst shape="@ + text::bracketed(dst_dims@) + " dtype="@
            + error::dtype_label(dst_dtype) + "): "@ + reason@,
{
}

/// A tensor whose buffer could not be filled is told by its name, the name of its file and where
/// its bytes are.
pub proof fn law_fill_error(
    name: &str,
    at: &str,
    meta: TensorMeta,
    reason: String,
    e: ShardError,
)
    requires
        call_ensures(fill_error, (name, at, &meta, reason), e),
    ensures
        e is FillFailed,
        e->FillFailed_name@ == name@,
        e->FillFailed_file@ == path::file_label(at@),
        e->start == meta.data_offsets.0,
        e->end == meta.data_offsets.1,
        e->FillFailed_reason == reason,
{
}

/// A cast tensor that did not reach its buffer is told by its name, with the dimensions and types
/// of both.
pub proof fn law_converted_copy_error(
    name: &str,
    src: Tensor,
    dst: Tensor,
    reason: String,
    e: ShardError,
)
    requires
        call_ensures(converted_copy_error, (name, &src, &dst, reason), e),
    ensures
        e is ConvertedCopyFailed,
        e->ConvertedCopyFailed_name@ == name@,
        e->src_dims@ == tensor::tensor_dims(src),
        e->src_dtype == tensor::tensor_dtype(src),
        e->dst_dims@ == tensor::tensor_dims(dst),
        e->dst_dtype == tensor::tensor_dtype(dst),
        e->ConvertedCopyFailed_reason == reason,
{
}

} // verus!
