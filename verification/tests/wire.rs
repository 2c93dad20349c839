use candle_core::{DType, Device, Tensor};
use tensor_shards::utils::framing::{decode_len, encode_len};
use tensor_shards::utils::index_files::{FileHeader, HeaderEntry};
use tensor_shards::utils::tensor_index::{Dist, TensorIndex, TensorShape};

fn sample() -> TensorIndex {
    let map = vec![
        ("w".to_string(), "f1".to_string()),
        ("b".to_string(), "f2".to_string()),
    ];
    let headers = vec![FileHeader {
        header_size: 2,
        entries: vec![
            HeaderEntry {
                name: "w".to_string(),
                dtype: "BF16".to_string(),
                shape: TensorShape::D2(2, 3),
                data_offsets: (0, 12),
            },
            HeaderEntry {
                name: "b".to_string(),
                dtype: "F32".to_string(),
                shape: TensorShape::D1(2),
                data_offsets: (12, 20),
            },
        ],
    }];
    let mut ti = TensorIndex::new("d", &map, &headers, &vec![Some(30)]);
    let t = Tensor::zeros((1, 3), DType::F32, &Device::Cpu).unwrap();
    ti.register("w", t, Dist::VocabParallel);
    ti.tensors.get_mut("w").unwrap().dst_dtype = Some("F32".to_string());
    ti
}

#[test]
fn lengths_are_little_endian() {
    assert_eq!(encode_len(0x0102), vec![2, 1, 0, 0, 0, 0, 0, 0]);
    assert_eq!(decode_len(&[2, 1, 0, 0, 0, 0, 0, 0]), 0x0102);
    assert_eq!(decode_len(&encode_len(usize::MAX)), usize::MAX);
}

#[test]
fn a_rank_receives_the_index_without_buffers() {
    let root = sample();
    let (size, data) = root.bcast_from_root().unwrap();
    assert_eq!(TensorIndex::bcast_len(false, &size), data.len());
    let rank = TensorIndex::bcast(false, &data).unwrap();
    let meta = rank.meta("w").unwrap();
    assert_eq!(meta.src_dtype, "BF16");
    assert_eq!(meta.shape, TensorShape::D2(2, 3));
    assert_eq!(meta.data_offsets, (10, 22));
    assert_eq!(meta.dist, Dist::VocabParallel);
    assert_eq!(meta.dst_dtype.as_deref(), Some("F32"));
    assert!(meta.buffer.is_none());
    let bias = rank.meta("b").unwrap();
    assert_eq!(bias.shape, TensorShape::D1(2));
    assert_eq!(bias.dist, Dist::Replicated);
    assert_eq!(rank.weight_files, root.weight_files);
    assert_eq!(rank.file_tensors.len(), 2);
    assert_eq!(rank.names_in_file("d/f2").unwrap(), &vec!["b".to_string()]);
    assert_eq!(rank.max_file_size, 30);
    assert_eq!(rank.tensors.len(), 2);
}

#[test]
fn the_bytes_are_laid_out_field_by_field() {
    let ti = TensorIndex::new(
        "",
        &vec![("w".to_string(), "f".to_string())],
        &vec![FileHeader {
            header_size: 0,
            entries: vec![HeaderEntry {
                name: "w".to_string(),
                dtype: "U8".to_string(),
                shape: TensorShape::D2(1, 2),
                data_offsets: (0, 2),
            }],
        }],
        &vec![Some(10)],
    );
    let (size, data) = ti.bcast_from_root().unwrap();
    let mut expected: Vec<u8> = Vec::new();
    let number = |n: u64, v: &mut Vec<u8>| v.extend_from_slice(&n.to_le_bytes());
    number(1, &mut expected);
    number(1, &mut expected);
    expected.push(b'w');
    number(2, &mut expected);
    expected.extend_from_slice(b"U8");
    expected.extend_from_slice(&1u32.to_le_bytes());
    number(1, &mut expected);
    number(2, &mut expected);
    number(8, &mut expected);
    number(10, &mut expected);
    expected.extend_from_slice(&0u32.to_le_bytes());
    expected.push(0);
    number(1, &mut expected);
    number(1, &mut expected);
    expected.push(b'f');
    number(1, &mut expected);
    number(1, &mut expected);
    expected.push(b'f');
    number(1, &mut expected);
    number(1, &mut expected);
    expected.push(b'w');
    number(10, &mut expected);
    assert_eq!(data, expected);
    assert_eq!(size, encode_len(expected.len()));
}

#[test]
fn bytes_that_are_no_index_are_refused() {
    let (_, mut data) = sample().bcast_from_root().unwrap();
    let e = match TensorIndex::bcast(false, &data[..data.len() - 1]) {
        Err(e) => e,
        Ok(_) => unreachable!(),
    };
    assert!(e.message().is_none());
    // The way the first tensor is split follows its name, type, dimensions and offsets.
    let at = 8 + (8 + 1) + (8 + 4) + (4 + 16) + 16;
    data[at] = 4;
    match TensorIndex::bcast(false, &data) {
        Err(e) => assert_eq!(
            e.message().unwrap(),
            "bincode deserialize: invalid value: integer `4`, expected variant index 0 <= i < 4"
        ),
        Ok(_) => unreachable!(),
    }
}
