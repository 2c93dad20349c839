use candle_core::{DType, Device, Tensor};
use tensor_shards::utils::shards::stays_inside;
use tensor_shards::utils::tensor::is_countable;
use tensor_shards::utils::tensor_index::{Dist, TensorMeta, TensorShape};
use tensor_shards::utils::transfer::{
    copy_device_to_device, copy_is_defined, copy_outcome, device_copy_is_defined,
    pinned_copy_to_gpu, DeviceCopy, FlatCopy, GpuCopy, RowCopy,
};

fn meta(shape: TensorShape, dist: Dist) -> TensorMeta {
    TensorMeta {
        src_dtype: "F32".to_string(),
        shape,
        data_offsets: (0, 0),
        dist,
        buffer: None,
        dst_dtype: None,
    }
}

fn zeros(dims: &[usize]) -> Tensor {
    Tensor::zeros(dims, DType::F32, &Device::Cpu).unwrap()
}

fn copy(buf: &Tensor, m: &TensorMeta, iproc: usize, nproc: usize) -> GpuCopy {
    assert!(copy_is_defined(buf, Some(1000), m, iproc, nproc));
    pinned_copy_to_gpu(buf, Some(1000), m, iproc, nproc).unwrap()
}

fn gathered(src: &[u8], c: GpuCopy) -> Vec<u8> {
    assert!(stays_inside(c, src.len()));
    match c {
        GpuCopy::Rows(c) => (0..c.height)
            .flat_map(|y| {
                let at = c.src_offset + y * c.src_pitch;
                src[at..at + c.width_bytes].to_vec()
            })
            .collect(),
        GpuCopy::Flat(c) => src[c.src_offset..c.src_offset + c.byte_count].to_vec(),
    }
}

#[test]
fn rows_are_split_in_blocks() {
    let m = meta(TensorShape::D2(6, 4), Dist::ColumnSharded);
    assert_eq!(
        copy(&zeros(&[2, 4]), &m, 1, 3),
        GpuCopy::Rows(RowCopy {
            src_offset: 32,
            src_pitch: 16,
            dst: 1000,
            dst_pitch: 16,
            width_bytes: 16,
            height: 2,
        })
    );
    let src: Vec<u8> = (0..96).collect();
    let mut all: Vec<u8> = Vec::new();
    for i in 0..3 {
        let v = meta(TensorShape::D2(6, 4), Dist::VocabParallel);
        assert_eq!(copy(&zeros(&[2, 4]), &v, i, 3), copy(&zeros(&[2, 4]), &m, i, 3));
        all.extend(gathered(&src, copy(&zeros(&[2, 4]), &m, i, 3)));
    }
    assert_eq!(all, src);
}

#[test]
fn columns_are_split_in_strips() {
    let m = meta(TensorShape::D2(2, 6), Dist::RowSharded);
    assert_eq!(
        copy(&zeros(&[2, 2]), &m, 2, 3),
        GpuCopy::Rows(RowCopy {
            src_offset: 16,
            src_pitch: 24,
            dst: 1000,
            dst_pitch: 8,
            width_bytes: 8,
            height: 2,
        })
    );
    let src: Vec<u8> = (0..48).collect();
    for y in 0..2 {
        for x in 0..24 {
            let part = gathered(&src, copy(&zeros(&[2, 2]), &m, x / 8, 3));
            assert_eq!(part[y * 8 + x % 8], src[y * 24 + x]);
        }
    }
}

#[test]
fn unsplit_tensors_are_copied_whole() {
    let src: Vec<u8> = (0..48).collect();
    let m = meta(TensorShape::D2(3, 4), Dist::Replicated);
    assert_eq!(gathered(&src, copy(&zeros(&[3, 4]), &m, 1, 2)), src);
    let m = meta(TensorShape::D1(12), Dist::Replicated);
    assert_eq!(gathered(&src, copy(&zeros(&[12]), &m, 1, 2)), src);
}

#[test]
fn flat_tensors_are_split_in_runs() {
    let m = meta(TensorShape::D1(12), Dist::RowSharded);
    assert_eq!(
        copy(&zeros(&[4]), &m, 2, 3),
        GpuCopy::Flat(FlatCopy { src_offset: 32, dst: 1000, count: 4, byte_count: 16 })
    );
    let src: Vec<u8> = (0..48).collect();
    let mut all: Vec<u8> = Vec::new();
    for i in 0..3 {
        all.extend(gathered(&src, copy(&zeros(&[4]), &m, i, 3)));
    }
    assert_eq!(all, src);
    let square = meta(TensorShape::D2(3, 4), Dist::ColumnSharded);
    assert_eq!(
        copy(&zeros(&[4]), &square, 1, 3),
        GpuCopy::Flat(FlatCopy { src_offset: 16, dst: 1000, count: 4, byte_count: 16 })
    );
}

#[test]
fn buffers_inside_a_larger_storage_start_later() {
    let m = meta(TensorShape::D2(2, 3), Dist::Replicated);
    let part = zeros(&[4, 5]).narrow(0, 1, 2).unwrap().narrow(1, 2, 3).unwrap();
    assert_eq!(
        copy(&part, &m, 0, 1),
        GpuCopy::Rows(RowCopy {
            src_offset: 0,
            src_pitch: 12,
            dst: 1028,
            dst_pitch: 20,
            width_bytes: 12,
            height: 2,
        })
    );
}

#[test]
fn only_cuda_buffers_of_one_or_two_dimensions_are_filled() {
    let m = meta(TensorShape::D2(2, 3), Dist::Replicated);
    let e = pinned_copy_to_gpu(&zeros(&[2, 3]), None, &m, 0, 1).unwrap_err();
    assert_eq!(e.message().unwrap(), "pinned_copy_to_gpu: dst not on CUDA device");
    let e = pinned_copy_to_gpu(&zeros(&[1, 2, 3]), Some(0), &m, 0, 1).unwrap_err();
    assert_eq!(e.message().unwrap(), "pinned_copy_to_gpu: unexpected 3D tensor");
}

#[test]
fn copies_that_do_not_divide_are_found() {
    let m = meta(TensorShape::D2(5, 3), Dist::ColumnSharded);
    assert!(!copy_is_defined(&zeros(&[2, 3]), Some(0), &m, 0, 2));
    assert!(!copy_is_defined(&zeros(&[2, 3]), Some(0), &m, 0, 0));
    assert!(copy_is_defined(&zeros(&[2, 3]), None, &m, 0, 2));
    let m = meta(TensorShape::D2(4, 3), Dist::RowSharded);
    assert!(!copy_is_defined(&zeros(&[4, 1]), Some(0), &m, 0, 2));
    let m = meta(TensorShape::D1(7), Dist::VocabParallel);
    assert!(!copy_is_defined(&zeros(&[3]), Some(0), &m, 0, 2));
    let m = meta(TensorShape::D2(4, 3), Dist::ColumnSharded);
    assert!(!copy_is_defined(&zeros(&[2, 3]), Some(0), &m, usize::MAX, 2));
}

#[test]
fn reads_behind_the_end_are_found() {
    let m = meta(TensorShape::D2(4, 3), Dist::ColumnSharded);
    let c = copy(&zeros(&[2, 3]), &m, 1, 2);
    assert!(stays_inside(c, 48));
    assert!(!stays_inside(c, 47));
    let m = meta(TensorShape::D1(4), Dist::ColumnSharded);
    let c = copy(&zeros(&[2]), &m, 1, 2);
    assert!(stays_inside(c, 16));
    assert!(!stays_inside(c, 15));
}

#[test]
fn refusals_of_the_driver_are_told() {
    let m = meta(TensorShape::D2(2, 3), Dist::Replicated);
    let rows = copy(&zeros(&[2, 3]), &m, 0, 1);
    assert!(copy_outcome(rows, None).is_ok());
    let e = copy_outcome(rows, Some("CODE".to_string())).unwrap_err();
    assert_eq!(
        e.message().unwrap(),
        "cuMemcpy2DAsync_v2 failed (rows=2, cols=12): err=CODE"
    );
    let m = meta(TensorShape::D1(3), Dist::Replicated);
    let flat = copy(&zeros(&[3]), &m, 0, 1);
    let e = copy_outcome(flat, Some("CODE".to_string())).unwrap_err();
    assert_eq!(
        e.message().unwrap(),
        "cuMemcpyHtoDAsync_v2 failed (count=3): err=CODE"
    );
}

#[test]
fn all_elements_are_copied_on_the_device() {
    let src = zeros(&[4, 5]).narrow(0, 1, 2).unwrap();
    let dst = zeros(&[10]).narrow(0, 3, 7).unwrap();
    assert!(device_copy_is_defined(&src, &dst, Some(100), Some(200)));
    assert_eq!(
        copy_device_to_device(&src, &dst, Some(100), Some(200)).unwrap(),
        DeviceCopy { dst: 212, src: 120, byte_count: 40 }
    );
    let e = copy_device_to_device(&src, &dst, None, None).unwrap_err();
    assert_eq!(e.message().unwrap(), "copy_device_to_device: src not on CUDA");
    let e = copy_device_to_device(&src, &dst, Some(1), None).unwrap_err();
    assert_eq!(e.message().unwrap(), "copy_device_to_device: dst not on CUDA");
    assert!(!device_copy_is_defined(&src, &dst, Some(u64::MAX), Some(0)));
    assert!(!device_copy_is_defined(&src, &dst, Some(0), Some(u64::MAX)));
    assert!(device_copy_is_defined(&src, &dst, Some(0), None));
}

#[test]
fn sizes_are_counted_from_both_ends() {
    assert!(is_countable(&[], 8));
    assert!(is_countable(&[3, 0, 5], 8));
    assert!(!is_countable(&[usize::MAX, 2, 0], 1));
    assert!(!is_countable(&[0, usize::MAX, 2], 1));
    assert!(is_countable(&[usize::MAX], 0));
    assert!(!is_countable(&[usize::MAX], 1));
}

#[test]
fn allocated_buffers_are_filled_without_a_gap() {
    for (dist, dims) in [
        (Dist::ColumnSharded, [2, 6]),
        (Dist::RowSharded, [4, 3]),
        (Dist::Replicated, [4, 6]),
    ] {
        let m = meta(TensorShape::D2(4, 6), dist);
        let buf = zeros(&dims);
        match copy(&buf, &m, 1, 2) {
            GpuCopy::Rows(c) => {
                assert_eq!(c.dst, 1000);
                assert_eq!(c.dst_pitch, c.width_bytes);
                assert_eq!(c.height * c.width_bytes, buf.elem_count() * 4);
            }
            GpuCopy::Flat(_) => unreachable!(),
        }
    }
}

#[test]
fn a_vocabulary_is_gathered_from_the_ranks() {
    // 6 rows on 3 ranks that have room for 4 each.
    let m = meta(TensorShape::D2(6, 2), Dist::VocabParallel);
    let src: Vec<u8> = (0..48).collect();
    let mut all: Vec<u8> = Vec::new();
    for i in 0..3 {
        let mut room = gathered(&src, copy(&zeros(&[4, 2]), &m, i, 3));
        room.resize(32, 0);
        all.extend(room);
    }
    assert_eq!(all[..48], src[..]);
    let last = copy(&zeros(&[4, 2]), &m, 2, 3);
    match last {
        GpuCopy::Rows(c) => assert_eq!((c.src_offset, c.height), (48, 0)),
        GpuCopy::Flat(_) => unreachable!(),
    }
    let m = meta(TensorShape::D1(6), Dist::VocabParallel);
    assert_eq!(
        copy(&zeros(&[4]), &m, 1, 2),
        GpuCopy::Flat(FlatCopy { src_offset: 16, dst: 1000, count: 2, byte_count: 8 })
    );
}

#[test]
fn padded_rows_of_a_vocabulary_are_not_read() {
    // 100 rows on 2 ranks that have room for 64 each.
    let m = meta(TensorShape::D2(100, 1), Dist::VocabParallel);
    match copy(&zeros(&[64, 1]), &m, 1, 2) {
        GpuCopy::Rows(c) => assert_eq!((c.src_offset, c.height), (64 * 4, 36)),
        GpuCopy::Flat(_) => unreachable!(),
    }
}

#[test]
fn ranks_with_little_room_start_at_their_equal_part() {
    // 4 rows on 2 ranks that have room for 1 each.
    let m = meta(TensorShape::D2(4, 2), Dist::VocabParallel);
    match copy(&zeros(&[1, 2]), &m, 1, 2) {
        GpuCopy::Rows(c) => assert_eq!((c.src_offset, c.height), (16, 1)),
        GpuCopy::Flat(_) => unreachable!(),
    }
    let m = meta(TensorShape::D1(4), Dist::VocabParallel);
    assert_eq!(
        copy(&zeros(&[1]), &m, 1, 2),
        GpuCopy::Flat(FlatCopy { src_offset: 8, dst: 1000, count: 1, byte_count: 4 })
    );
}
