use candle_core::{DType, Device, Tensor};
use tensor_shards::utils::convert::conversion_is_defined;
use tensor_shards::utils::error::ShardError;
use tensor_shards::utils::index_files::{FileHeader, HeaderEntry};
use tensor_shards::utils::tensor_index::{Dist, TensorIndex, TensorMeta, TensorShape};
use tensor_shards::utils::transfer::GpuCopy;
use tensor_shards::utils::weight_loader::{
    broadcast_of, converted_copy_error, fill_error, fill_is_defined, load_weights, source_dtype,
    try_fill_tensor, Broadcast, Fill, LoadStep, PinnedBuffer, Region,
};

fn entry(name: &str) -> HeaderEntry {
    HeaderEntry {
        name: name.to_string(),
        dtype: "F32".to_string(),
        shape: TensorShape::D1(1),
        data_offsets: (0, 4),
    }
}

fn sample(size: usize) -> TensorIndex {
    let map = vec![
        ("a".to_string(), "f1".to_string()),
        ("b".to_string(), "f1".to_string()),
        ("c".to_string(), "f2".to_string()),
        ("d".to_string(), "f2".to_string()),
    ];
    let headers = vec![FileHeader {
        header_size: 0,
        entries: vec![entry("a"), entry("b"), entry("c")],
    }];
    let mut ti = TensorIndex::new("w", &map, &headers, &vec![Some(size)]);
    let t = Tensor::zeros(1, DType::F32, &Device::Cpu).unwrap();
    ti.register("b", t.clone(), Dist::Replicated);
    ti.register("c", t, Dist::Replicated);
    ti
}

fn told(steps: &[LoadStep]) -> Vec<String> {
    steps
        .iter()
        .map(|s| match s {
            LoadStep::Allocate { size } => format!("allocate {size}"),
            LoadStep::Measure { path } => format!("measure {path}"),
            LoadStep::Read { path } => format!("read {path}"),
            LoadStep::Broadcast { path } => format!("broadcast {path}"),
            LoadStep::Synchronize => "synchronize".to_string(),
            LoadStep::Fill { path, name } => format!("fill {name} from {path}"),
        })
        .collect()
}

#[test]
fn the_root_reads_every_file_and_fills_what_has_a_buffer() {
    assert_eq!(
        told(&load_weights(&sample(20), 0)),
        vec![
            "allocate 20",
            "measure w/f1",
            "read w/f1",
            "broadcast w/f1",
            "synchronize",
            "fill b from w/f1",
            "measure w/f2",
            "read w/f2",
            "broadcast w/f2",
            "synchronize",
            "fill c from w/f2",
            "synchronize",
        ]
    );
}

#[test]
fn other_ranks_do_the_same_but_look_at_no_file() {
    assert_eq!(
        told(&load_weights(&sample(20), 3)),
        vec![
            "allocate 20",
            "broadcast w/f1",
            "synchronize",
            "fill b from w/f1",
            "broadcast w/f2",
            "synchronize",
            "fill c from w/f2",
            "synchronize",
        ]
    );
}

#[test]
fn empty_files_are_not_loaded() {
    assert!(load_weights(&sample(0), 0).is_empty());
}

#[test]
fn files_without_listed_tensors_are_skipped() {
    let mut ti = sample(20);
    ti.file_tensors[0].names.clear();
    ti.weight_files.push("w/f3".to_string());
    assert_eq!(
        told(&load_weights(&ti, 1)),
        vec![
            "allocate 20",
            "broadcast w/f2",
            "synchronize",
            "fill c from w/f2",
            "synchronize",
        ]
    );
}

#[test]
fn pinned_memory_is_asked_for_unless_empty() {
    assert_eq!(PinnedBuffer::request(0), None);
    assert_eq!(PinnedBuffer::request(7), Some(7));
    let mut b = PinnedBuffer::new(7, Ok(4096)).unwrap();
    assert_eq!(b.as_slice(), Region { ptr: 4096, len: 7 });
    assert_eq!(b.as_mut_slice(), Region { ptr: 4096, len: 7 });
    assert_eq!(b.as_ptr(), 4096);
    assert_eq!(b.as_mut_ptr(), 4096);
    assert_eq!(b.release(), Some(4096));
    let mut none = PinnedBuffer::new(0, Err("unused".to_string())).unwrap();
    assert_eq!(none.as_slice(), Region { ptr: 0, len: 0 });
    assert_eq!(none.as_mut_slice(), Region { ptr: 0, len: 0 });
    assert_eq!(none.release(), None);
    let e = PinnedBuffer::new(7, Err("CUDA_ERROR".to_string())).unwrap_err();
    assert_eq!(e.message().unwrap(), "cuMemHostAlloc(7): err=CUDA_ERROR");
}

#[test]
fn regions_hold_their_parts() {
    let r = Region { ptr: 100, len: 10 };
    assert!(r.holds(3, 10));
    assert!(r.holds(10, 10));
    assert!(!r.holds(3, 11));
    assert!(!r.holds(4, 3));
    assert_eq!(r.part(3, 7), Region { ptr: 103, len: 4 });
}

#[test]
fn only_the_first_rank_sends() {
    let mut b = PinnedBuffer::new(7, Ok(4096)).unwrap();
    assert_eq!(
        broadcast_of(&mut b, 0, 7),
        Broadcast { send: 4096, recv: 4096, count: 7, root: 0 }
    );
    assert_eq!(
        broadcast_of(&mut b, 2, 7),
        Broadcast { send: 0, recv: 4096, count: 7, root: 0 }
    );
}

fn meta(src_dtype: &str, shape: TensorShape, dist: Dist) -> TensorMeta {
    TensorMeta {
        src_dtype: src_dtype.to_string(),
        shape,
        data_offsets: (8, 20),
        dist,
        buffer: None,
        dst_dtype: None,
    }
}

fn bytes(values: &[f32]) -> Vec<u8> {
    values.iter().flat_map(|v| v.to_le_bytes()).collect()
}

fn buffer(dims: &[usize]) -> Tensor {
    Tensor::zeros(dims, DType::F64, &Device::Cpu).unwrap()
}

fn fill(data: &[u8], buf: &Tensor, m: &TensorMeta, i: usize, n: usize) -> Result<Tensor, ShardError> {
    let dtype = source_dtype(m, buf);
    assert!(fill_is_defined(data.len(), buf, None, dtype, m, i, n));
    match try_fill_tensor(data, buf, None, dtype, &Device::Cpu, i, n, m) {
        Ok(Fill::Converted(t)) => Ok(t),
        Ok(Fill::Copy(_)) => unreachable!(),
        Err(e) => Err(e),
    }
}

#[test]
fn the_file_tells_the_type_of_the_bytes() {
    let buf = buffer(&[2]);
    let m = meta("BF16", TensorShape::D1(2), Dist::Replicated);
    assert_eq!(source_dtype(&m, &buf), DType::BF16);
    let m = meta("I32", TensorShape::D1(2), Dist::Replicated);
    assert_eq!(source_dtype(&m, &buf), DType::F64);
}

#[test]
fn equal_types_are_copied() {
    let buf = Tensor::zeros((2, 2), DType::F32, &Device::Cpu).unwrap();
    let m = meta("F32", TensorShape::D2(2, 2), Dist::Replicated);
    let data = bytes(&[1.0, 2.0, 3.0, 4.0]);
    let filled = try_fill_tensor(&data, &buf, Some(64), DType::F32, &Device::Cpu, 0, 1, &m);
    match filled.unwrap() {
        Fill::Copy(GpuCopy::Rows(c)) => assert_eq!((c.dst, c.height, c.width_bytes), (64, 2, 8)),
        _ => unreachable!(),
    }
    let e = try_fill_tensor(&data, &buf, None, DType::F32, &Device::Cpu, 0, 1, &m).unwrap_err();
    assert_eq!(e.message().unwrap(), "pinned_copy_to_gpu: dst not on CUDA device");
}

#[test]
fn other_types_are_cast() {
    let m = meta("F32", TensorShape::D2(2, 2), Dist::Replicated);
    let t = fill(&bytes(&[1.0, 2.5, 3.0, -4.0]), &buffer(&[2, 2]), &m, 0, 1).unwrap();
    assert_eq!(t.to_vec2::<f64>().unwrap(), vec![vec![1.0, 2.5], vec![3.0, -4.0]]);
}

#[test]
fn ranks_take_their_rows_of_a_cast() {
    let m = meta("F32", TensorShape::D2(4, 2), Dist::ColumnSharded);
    let data = bytes(&[1.0, 2.0, 3.0, 4.0, 5.0, 6.0, 7.0, 8.0]);
    let t = fill(&data, &buffer(&[2, 2]), &m, 1, 2).unwrap();
    assert_eq!(t.to_vec2::<f64>().unwrap(), vec![vec![5.0, 6.0], vec![7.0, 8.0]]);
    let v = meta("F32", TensorShape::D2(4, 2), Dist::VocabParallel);
    let t = fill(&data, &buffer(&[2, 2]), &v, 0, 2).unwrap();
    assert_eq!(t.to_vec2::<f64>().unwrap(), vec![vec![1.0, 2.0], vec![3.0, 4.0]]);
}

#[test]
fn ranks_take_their_columns_of_a_cast() {
    let m = meta("F32", TensorShape::D2(2, 4), Dist::RowSharded);
    let data = bytes(&[1.0, 2.0, 3.0, 4.0, 5.0, 6.0, 7.0, 8.0]);
    let t = fill(&data, &buffer(&[2, 2]), &m, 1, 2).unwrap();
    assert_eq!(t.to_vec2::<f64>().unwrap(), vec![vec![3.0, 4.0], vec![7.0, 8.0]]);
}

#[test]
fn missing_rows_are_filled_with_zeros() {
    let m = meta("F32", TensorShape::D2(2, 2), Dist::ColumnSharded);
    let data = bytes(&[1.0, 2.0, 3.0, 4.0]);
    let t = fill(&data, &buffer(&[3, 2]), &m, 1, 2).unwrap();
    assert_eq!(
        t.to_vec2::<f64>().unwrap(),
        vec![vec![3.0, 4.0], vec![0.0, 0.0], vec![0.0, 0.0]]
    );
    let empty = meta("F32", TensorShape::D2(0, 2), Dist::ColumnSharded);
    let t = fill(&[], &buffer(&[2, 2]), &empty, 1, 2).unwrap();
    assert_eq!(t.to_vec2::<f64>().unwrap(), vec![vec![0.0, 0.0], vec![0.0, 0.0]]);
}

#[test]
fn a_cast_vocabulary_is_gathered_from_the_ranks() {
    // 6 rows on 3 ranks that have room for 4 each.
    let values: Vec<f32> = (0..12).map(|x| x as f32).collect();
    let m = meta("F32", TensorShape::D2(6, 2), Dist::VocabParallel);
    let mut gathered: Vec<Vec<f64>> = Vec::new();
    for i in 0..3 {
        let t = fill(&bytes(&values), &buffer(&[4, 2]), &m, i, 3).unwrap();
        gathered.extend(t.to_vec2::<f64>().unwrap());
    }
    let whole: Vec<Vec<f64>> = (0..6).map(|r| vec![2.0 * r as f64, 2.0 * r as f64 + 1.0]).collect();
    assert_eq!(gathered[..6], whole[..]);
    assert!(gathered[6..].iter().all(|row| row == &vec![0.0, 0.0]));
}

#[test]
fn a_cast_has_the_elements_of_the_copy() {
    let values: Vec<f32> = (0..24).map(|x| x as f32 * 0.5).collect();
    for (dist, dims) in [
        (Dist::ColumnSharded, [2, 6]),
        (Dist::VocabParallel, [2, 6]),
        (Dist::RowSharded, [4, 3]),
        (Dist::Replicated, [4, 6]),
    ] {
        let m = meta("F32", TensorShape::D2(4, 6), dist);
        let data = bytes(&values);
        let raw = Tensor::zeros(&dims, DType::F32, &Device::Cpu).unwrap();
        let copy = try_fill_tensor(&data, &raw, Some(0), DType::F32, &Device::Cpu, 1, 2, &m);
        let copied: Vec<f64> = match copy.unwrap() {
            Fill::Copy(GpuCopy::Rows(c)) => (0..c.height)
                .flat_map(|y| {
                    let at = (c.src_offset + y * c.src_pitch) / 4;
                    values[at..at + c.width_bytes / 4].to_vec()
                })
                .map(|v| v as f64)
                .collect(),
            _ => unreachable!(),
        };
        let cast = fill(&data, &buffer(&dims), &m, 1, 2).unwrap();
        assert_eq!(cast.flatten_all().unwrap().to_vec1::<f64>().unwrap(), copied);
    }
}

#[test]
fn columns_of_no_rows_are_filled_up() {
    let m = meta("F32", TensorShape::D2(0, 4), Dist::RowSharded);
    let t = fill(&[], &buffer(&[0, 3]), &m, 1, 2).unwrap();
    assert_eq!(t.dims(), &[0, 3]);
}

#[test]
fn missing_columns_are_filled_with_zeros() {
    let m = meta("F32", TensorShape::D2(2, 2), Dist::RowSharded);
    let data = bytes(&[1.0, 2.0, 3.0, 4.0]);
    let t = fill(&data, &buffer(&[2, 3]), &m, 1, 2).unwrap();
    assert_eq!(
        t.to_vec2::<f64>().unwrap(),
        vec![vec![2.0, 0.0, 0.0], vec![4.0, 0.0, 0.0]]
    );
    let empty = meta("F32", TensorShape::D2(2, 0), Dist::RowSharded);
    let t = fill(&[], &buffer(&[2, 1]), &empty, 0, 2).unwrap();
    assert_eq!(t.to_vec2::<f64>().unwrap(), vec![vec![0.0], vec![0.0]]);
}

#[test]
fn flat_tensors_are_split_by_their_buffer_in_a_cast() {
    let m = meta("F32", TensorShape::D1(4), Dist::ColumnSharded);
    let t = fill(&bytes(&[1.0, 2.0]), &buffer(&[2]), &m, 0, 1).unwrap();
    assert_eq!(t.to_vec1::<f64>().unwrap(), vec![1.0, 2.0]);
}

#[test]
fn bytes_that_do_not_suit_the_dimensions_are_refused() {
    let m = meta("F32", TensorShape::D2(2, 2), Dist::Replicated);
    match fill(&bytes(&[1.0, 2.0, 3.0]), &buffer(&[2, 2]), &m, 0, 1) {
        Err(ShardError::Candle(_)) => {}
        _ => unreachable!(),
    }
    let m = meta("F32", TensorShape::D2(2, 3), Dist::ColumnSharded);
    // The zeros to fill up with are narrower than the rows.
    let data = bytes(&[1.0, 2.0, 3.0, 4.0, 5.0, 6.0]);
    assert!(fill(&data, &buffer(&[2, 2]), &m, 1, 2).is_err());
    let m = meta("F8_E8M0", TensorShape::D2(2, 2), Dist::Replicated);
    assert!(fill(&[0; 4], &buffer(&[2, 2]), &m, 0, 1).is_err());
}

#[test]
fn casts_that_cannot_be_laid_out_are_found() {
    let (f, d) = (DType::F32, DType::F64);
    let shape = TensorShape::D2(4, 4);
    let col = Dist::ColumnSharded;
    assert!(conversion_is_defined(64, f, d, &[2, 4], shape, col, 1, 2));
    assert!(!conversion_is_defined(63, f, d, &[2, 4], shape, col, 1, 2));
    assert!(!conversion_is_defined(64, f, d, &[2, 4], shape, col, 1, 3));
    assert!(!conversion_is_defined(64, f, d, &[2, 4], shape, col, 1, 0));
    assert!(!conversion_is_defined(64, f, d, &[2, 4], shape, col, 3, 2));
    assert!(!conversion_is_defined(64, f, d, &[], shape, col, 1, 2));
    assert!(!conversion_is_defined(64, DType::F4, d, &[2, 4], shape, col, 1, 2));
    // A flat buffer that has to be filled up has no second dimension.
    assert!(!conversion_is_defined(64, f, d, &[3], shape, col, 1, 2));
    assert!(!conversion_is_defined(64, f, d, &[2], TensorShape::D1(2), Dist::RowSharded, 0, 1));
}

#[test]
fn what_could_not_be_filled_is_told() {
    let m = meta("F32", TensorShape::D1(2), Dist::Replicated);
    let e = fill_error("t", "w/f1", &m, "why".to_string());
    assert_eq!(
        e.message().unwrap(),
        "Error filling tensor 't' from f1 (offset 8..20): why"
    );
    let src = Tensor::zeros((2, 3), DType::BF16, &Device::Cpu).unwrap();
    let dst = Tensor::zeros(6, DType::F8E4M3, &Device::Cpu).unwrap();
    let e = converted_copy_error("t", &src, &dst, "why".to_string());
    assert_eq!(
        e.message().unwrap(),
        "dtod copy failed for 't' (src_t shape=[2, 3] dtype=BF16, dst shape=[6] dtype=F8E4M3): why"
    );
}

#[test]
fn other_errors_have_texts() {
    let text = |e: ShardError| e.message().unwrap();
    let (a, b) = ("a".to_string(), "b".to_string());
    assert_eq!(
        text(ShardError::DeviceCopyFailed { code: a.clone() }),
        "cuMemcpyDtoDAsync_v2 failed: a"
    );
    assert_eq!(
        text(ShardError::OpenFailed { path: a.clone(), reason: b.clone() }),
        "open a: b"
    );
    assert_eq!(
        text(ShardError::ReadFailed { path: a.clone(), reason: b.clone() }),
        "read a: b"
    );
    assert_eq!(
        text(ShardError::BroadcastFailed { file: a, reason: b }),
        "bcast a: b"
    );
    let candle = Tensor::zeros(2, DType::F32, &Device::Cpu).unwrap().narrow(0, 1, 5).unwrap_err();
    assert!(ShardError::Candle(candle).message().is_none());
}
