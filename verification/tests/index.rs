use candle_core::{DType, Device, Tensor};
use tensor_shards::utils::error::ShardError;
use tensor_shards::utils::index_files::{
    deserialize_pair, deserialize_shape, group_by_file, header_fits, largest_size, weight_files,
    FileHeader, HeaderEntry,
};
use tensor_shards::utils::tensor_index::{Dist, TensorIndex, TensorShape};

fn entry(name: &str, dtype: &str, shape: TensorShape, offsets: (usize, usize)) -> HeaderEntry {
    HeaderEntry {
        name: name.to_string(),
        dtype: dtype.to_string(),
        shape,
        data_offsets: offsets,
    }
}

fn weight_map(items: &[(&str, &str)]) -> Vec<(String, String)> {
    items
        .iter()
        .map(|(n, f)| (n.to_string(), f.to_string()))
        .collect()
}

fn sample() -> TensorIndex {
    let map = weight_map(&[
        ("b.weight", "model-2.safetensors"),
        ("a.weight", "model-1.safetensors"),
        ("a.bias", "model-1.safetensors"),
        ("a.weight_scale_inv", "model-2.safetensors"),
    ]);
    let headers = vec![
        FileHeader {
            header_size: 100,
            entries: vec![
                entry("a.weight", "BF16", TensorShape::D2(4, 6), (0, 48)),
                entry("a.bias", "F32", TensorShape::D1(4), (48, 64)),
            ],
        },
        FileHeader {
            header_size: 20,
            entries: vec![
                entry("b.weight", "F8_E4M3", TensorShape::D2(8, 2), (0, 16)),
                entry("a.weight_scale_inv", "F32", TensorShape::D2(3, 5), (16, 76)),
            ],
        },
    ];
    TensorIndex::new("dir", &map, &headers, &vec![Some(172), None])
}

#[test]
fn offsets_count_from_the_start_of_the_file() {
    let ti = sample();
    let meta = ti.meta("a.bias").unwrap();
    assert_eq!(meta.data_offsets, (156, 172));
    assert_eq!(meta.shape, TensorShape::D1(4));
    assert_eq!(meta.src_dtype, "F32");
    assert_eq!(meta.dist, Dist::Replicated);
    assert!(meta.buffer.is_none());
    assert!(meta.dst_dtype.is_none());
    assert_eq!(ti.meta("b.weight").unwrap().data_offsets, (28, 44));
    assert!(ti.meta("c.weight").is_none());
    assert_eq!(ti.tensors.len(), 4);
}

#[test]
fn largest_known_file_counts() {
    assert_eq!(sample().max_file_size, 172);
    assert_eq!(largest_size(&vec![Some(3), None, Some(9), Some(4)]), 9);
    assert_eq!(largest_size(&vec![None, None]), 0);
    assert_eq!(largest_size(&vec![]), 0);
}

#[test]
fn weight_files_are_sorted_and_listed_once() {
    let ti = sample();
    assert_eq!(
        ti.weight_files,
        vec![
            "dir/model-1.safetensors".to_string(),
            "dir/model-2.safetensors".to_string()
        ]
    );
    let shuffled = weight_map(&[
        ("a.bias", "model-1.safetensors"),
        ("a.weight_scale_inv", "model-2.safetensors"),
        ("a.weight", "model-1.safetensors"),
        ("b.weight", "model-2.safetensors"),
    ]);
    assert_eq!(weight_files("dir", &shuffled), ti.weight_files);
}

#[test]
fn weight_files_sort_by_component() {
    let map = weight_map(&[("x", "b.st"), ("y", "a-b/c.st"), ("z", "a/d.st"), ("w", "/abs.st")]);
    assert_eq!(
        weight_files("w", &map),
        vec![
            "/abs.st".to_string(),
            "w/a/d.st".to_string(),
            "w/a-b/c.st".to_string(),
            "w/b.st".to_string()
        ]
    );
}

#[test]
fn every_tensor_is_listed_for_its_file() {
    let ti = sample();
    assert_eq!(
        ti.names_in_file("dir/model-1.safetensors").unwrap(),
        &vec!["a.weight".to_string(), "a.bias".to_string()]
    );
    assert_eq!(
        ti.names_in_file("dir//model-2.safetensors").unwrap(),
        &vec!["b.weight".to_string(), "a.weight_scale_inv".to_string()]
    );
    assert!(ti.names_in_file("dir/model-3.safetensors").is_none());
    let groups = group_by_file("d", &weight_map(&[("p", "f"), ("q", "./f")]));
    assert_eq!(groups.len(), 1);
    assert_eq!(groups[0].names, vec!["p".to_string(), "q".to_string()]);
}

#[test]
fn a_later_declaration_replaces_an_earlier_one() {
    let headers = vec![
        FileHeader {
            header_size: 2,
            entries: vec![entry("t", "F16", TensorShape::D1(1), (0, 2))],
        },
        FileHeader {
            header_size: 4,
            entries: vec![entry("t", "F32", TensorShape::D1(2), (0, 8))],
        },
    ];
    let ti = TensorIndex::new("", &vec![], &headers, &vec![]);
    let meta = ti.meta("t").unwrap();
    assert_eq!(meta.src_dtype, "F32");
    assert_eq!(meta.data_offsets, (12, 20));
    assert!(ti.weight_files.is_empty());
    assert_eq!(ti.max_file_size, 0);
}

#[test]
fn offsets_that_do_not_fit_are_found() {
    let fits = FileHeader {
        header_size: 10,
        entries: vec![entry("t", "F16", TensorShape::D1(1), (0, usize::MAX - 18))],
    };
    assert!(header_fits(&fits));
    let too_far = FileHeader {
        header_size: 10,
        entries: vec![entry("t", "F16", TensorShape::D1(1), (0, usize::MAX - 17))],
    };
    assert!(!header_fits(&too_far));
    let too_long = FileHeader {
        header_size: usize::MAX - 7,
        entries: vec![],
    };
    assert!(!header_fits(&too_long));
}

#[test]
fn shapes_and_pairs_are_read() {
    assert_eq!(deserialize_shape(&[7]), TensorShape::D1(7));
    assert_eq!(deserialize_shape(&[7, 9]), TensorShape::D2(7, 9));
    assert_eq!(deserialize_pair(&[3, 5, 8]), (3, 5));
}

#[test]
fn tensors_are_printed_in_order() {
    assert_eq!(
        sample().print_tensors(),
        vec![
            "  a.bias  F32     [4]".to_string(),
            "  a.weight  BF16    [4, 6]".to_string(),
            "  a.weight_scale_inv  F32     [3, 5]".to_string(),
            "  b.weight  F8_E4M3  [8, 2]".to_string(),
        ]
    );
}

#[test]
fn element_types_are_read_back() {
    let all = [
        DType::F8E4M3,
        DType::BF16,
        DType::F16,
        DType::F32,
        DType::F64,
        DType::F8E8M0,
        DType::U8,
        DType::U32,
        DType::I64,
    ];
    for d in all {
        assert_eq!(TensorIndex::parse_dtype(TensorIndex::dtype_to_string(d)), Some(d));
    }
    assert_eq!(TensorIndex::dtype_to_string(DType::F8E4M3), "F8_E4M3");
    assert_eq!(TensorIndex::parse_dtype("F8E4M3"), Some(DType::F8E4M3));
    assert_eq!(TensorIndex::parse_dtype("F8E8M0"), Some(DType::F8E8M0));
    assert_eq!(TensorIndex::parse_dtype("f32"), None);
    assert_eq!(TensorIndex::parse_dtype("I32"), None);
}

#[test]
fn registering_keeps_everything_else() {
    let mut ti = sample();
    let t = Tensor::zeros((4, 6), DType::F32, &Device::Cpu).unwrap();
    ti.register("a.weight", t.clone(), Dist::RowSharded);
    let meta = ti.meta("a.weight").unwrap();
    assert_eq!(meta.dist, Dist::RowSharded);
    assert_eq!(meta.buffer.as_ref().unwrap().dims(), &[4, 6]);
    assert_eq!(meta.src_dtype, "BF16");
    assert_eq!(meta.data_offsets, (108, 156));
    assert!(ti.meta("a.bias").unwrap().buffer.is_none());
    ti.register("nowhere", t, Dist::RowSharded);
    assert_eq!(ti.tensors.len(), 4);
}

#[test]
fn scales_are_put_down_replicated() {
    let mut ti = sample();
    let t = Tensor::zeros((4, 6), DType::F32, &Device::Cpu).unwrap();
    let s = Tensor::zeros((3, 5), DType::F32, &Device::Cpu).unwrap();
    ti.register_weight_scale("a", t.clone(), Some(s), Dist::ColumnSharded);
    let scale = ti.meta("a.weight_scale_inv").unwrap();
    assert_eq!(scale.dist, Dist::Replicated);
    assert!(scale.buffer.is_some());
    assert!(ti.meta("a.weight").unwrap().buffer.is_none());
    let mut other = sample();
    other.register_weight_scale("a", t, None, Dist::ColumnSharded);
    assert!(other.meta("a.weight_scale_inv").unwrap().buffer.is_none());
}

#[test]
fn zeros_have_the_wanted_type() {
    let mut ti = sample();
    assert!(ti.can_allocate("a.weight", &[2, 6]));
    let t = ti.alloc_zeros("a.weight", &[2, 6], &Device::Cpu).unwrap();
    assert_eq!(t.dtype(), DType::BF16);
    assert_eq!(t.dims(), &[2, 6]);
    ti.tensors.get_mut("a.weight").unwrap().dst_dtype = Some("F32".to_string());
    let t = ti.alloc_zeros("a.weight", &[2, 6], &Device::Cpu).unwrap();
    assert_eq!(t.dtype(), DType::F32);
    assert_eq!(t.to_vec2::<f32>().unwrap(), vec![vec![0.0; 6]; 2]);
    ti.tensors.get_mut("a.weight").unwrap().dst_dtype = Some("??".to_string());
    let t = ti.alloc_zeros("a.weight", &[1], &Device::Cpu).unwrap();
    assert_eq!(t.dtype(), DType::BF16);
    assert!(ti.meta("a.weight").unwrap().buffer.is_none());
}

#[test]
fn unknown_names_are_not_found() {
    let mut ti = sample();
    let e = ti.alloc_zeros("c", &[1], &Device::Cpu).unwrap_err();
    assert_eq!(e.message().unwrap(), "TensorIndex: 'c' not found");
    assert!(ti.alloc_column_sharded("c", 4, 4, 0, 2, &Device::Cpu).is_err());
    assert!(ti.alloc_row_sharded("c", 4, 4, 0, 2, &Device::Cpu).is_err());
    assert!(ti.alloc_replicated_linear("c", 4, 4, true, &Device::Cpu).is_err());
    match ti.alloc_weight_scale("c", &[4, 4], &[2, 2], Dist::RowSharded, &Device::Cpu) {
        Err(ShardError::NotFound { name }) => assert_eq!(name, "c.weight"),
        _ => unreachable!(),
    }
}

#[test]
fn buffers_that_cannot_be_made_are_found() {
    let mut ti = sample();
    assert!(!ti.can_allocate("a.weight", &[usize::MAX, 2]));
    assert!(ti.can_allocate("c", &[usize::MAX, 2]));
    ti.tensors.get_mut("a.bias").unwrap().src_dtype = "I3".to_string();
    assert!(!ti.can_allocate("a.bias", &[4]));
}

#[test]
fn candle_refuses_types_that_it_only_stores() {
    let mut ti = sample();
    ti.tensors.get_mut("a.weight").unwrap().dst_dtype = Some("F8_E8M0".to_string());
    match ti.alloc_column_sharded("a", 4, 6, 0, 2, &Device::Cpu) {
        Err(ShardError::Candle(_)) => {}
        _ => unreachable!(),
    }
    assert!(ti.meta("a.weight").unwrap().buffer.is_none());
}

#[test]
fn linear_layers_are_replicated() {
    let mut ti = sample();
    let (w, b) = ti.alloc_replicated_linear("a", 4, 6, true, &Device::Cpu).unwrap();
    assert_eq!(w.dims(), &[4, 6]);
    assert_eq!(b.unwrap().dims(), &[4]);
    assert!(ti.meta("a.bias").unwrap().buffer.is_some());
    let mut other = sample();
    let (_, b) = other.alloc_replicated_linear("a", 4, 6, false, &Device::Cpu).unwrap();
    assert!(b.is_none());
    assert!(other.meta("a.bias").unwrap().buffer.is_none());
    let (_, b) = other.alloc_replicated_linear("b", 8, 2, true, &Device::Cpu).unwrap();
    assert!(b.is_none());
}

#[test]
fn shards_take_an_equal_part() {
    let mut ti = sample();
    let t = ti.alloc_column_sharded("a", 4, 6, 1, 2, &Device::Cpu).unwrap();
    assert_eq!(t.dims(), &[2, 6]);
    assert_eq!(ti.meta("a.weight").unwrap().dist, Dist::ColumnSharded);
    let t = ti.alloc_row_sharded("a", 4, 6, 1, 3, &Device::Cpu).unwrap();
    assert_eq!(t.dims(), &[4, 2]);
    assert_eq!(ti.meta("a.weight").unwrap().dist, Dist::RowSharded);
}

#[test]
fn scales_cover_the_blocks() {
    let mut ti = sample();
    assert!(ti.can_allocate_scale("a", &[5, 6], &[2, 4], Dist::ColumnSharded));
    let (w, s) = ti
        .alloc_weight_scale("a", &[5, 6], &[2, 4], Dist::ColumnSharded, &Device::Cpu)
        .unwrap();
    assert_eq!(w.dims(), &[5, 6]);
    let s = s.unwrap();
    assert_eq!(s.dims(), &[3, 2]);
    assert_eq!(s.dtype(), DType::F32);
    assert_eq!(ti.meta("a.weight_scale_inv").unwrap().dist, Dist::ColumnSharded);
    let (_, s) = ti
        .alloc_weight_scale("a", &[4, 6], &[], Dist::Replicated, &Device::Cpu)
        .unwrap();
    assert_eq!(s.unwrap().dims(), &[3, 5]);
    let (_, s) = ti
        .alloc_weight_scale("b", &[8, 2], &[2, 2], Dist::RowSharded, &Device::Cpu)
        .unwrap();
    assert!(s.is_none());
    assert!(!ti.can_allocate_scale("a", &[5, 6], &[2], Dist::ColumnSharded));
    assert!(!ti.can_allocate_scale("a", &[5, 6], &[0, 1], Dist::ColumnSharded));
    assert!(ti.can_allocate_scale("b", &[5, 6], &[2], Dist::ColumnSharded));
    assert!(ti.can_allocate_scale("a", &[5, 6], &[2], Dist::Replicated));
}

#[test]
fn flat_scales_have_the_shape_of_the_weight() {
    let mut ti = sample();
    ti.tensors.get_mut("a.weight_scale_inv").unwrap().shape = TensorShape::D1(9);
    let (_, s) = ti
        .alloc_weight_scale("a", &[4, 6], &[2, 2], Dist::Replicated, &Device::Cpu)
        .unwrap();
    assert_eq!(s.unwrap().dims(), &[4, 6]);
}

#[test]
fn of_two_lists_for_a_file_the_last_counts() {
    let mut ti = sample();
    let path = ti.file_tensors[0].path.clone();
    ti.file_tensors.push(tensor_shards::utils::tensor_index::FileTensors {
        path: path.clone(),
        names: vec!["z".to_string()],
    });
    assert_eq!(ti.names_in_file(&path).unwrap(), &vec!["z".to_string()]);
}

#[test]
fn no_file_is_listed_twice() {
    let ti = sample();
    assert_eq!(ti.file_tensors.len(), ti.weight_files.len());
    let total: usize = ti.file_tensors.iter().map(|g| g.names.len()).sum();
    assert_eq!(total, 4);
    let mut paths: Vec<String> = ti.file_tensors.iter().map(|g| g.path.clone()).collect();
    paths.sort();
    assert_eq!(paths, ti.weight_files);
}

#[test]
fn an_index_can_be_cloned_and_shown() {
    let mut ti = sample();
    let copy = ti.clone();
    let t = Tensor::zeros((4, 6), DType::F32, &Device::Cpu).unwrap();
    ti.register("a.weight", t, Dist::RowSharded);
    assert!(copy.meta("a.weight").unwrap().buffer.is_none());
    let meta = ti.meta("a.weight").unwrap().clone();
    assert_eq!(meta.dist, Dist::RowSharded);
    assert!(meta.buffer.is_some());
    assert!(format!("{copy:?}").contains("a.bias"));
}

#[test]
fn many_names_are_told_apart() {
    let entries: Vec<HeaderEntry> = (0..10000)
        .map(|i| entry(&format!("layer.{i}"), "F32", TensorShape::D1(i), (0, 4)))
        .collect();
    let headers = vec![FileHeader { header_size: 0, entries }];
    let ti = TensorIndex::new("", &vec![], &headers, &vec![]);
    assert_eq!(ti.tensors.len(), 10000);
    for i in [0, 17, 4095, 4096, 9999] {
        assert_eq!(ti.meta(&format!("layer.{i}")).unwrap().shape, TensorShape::D1(i));
    }
    assert!(ti.meta("layer.10000").is_none());
}
