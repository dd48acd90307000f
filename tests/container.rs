use safetensors::codec::{read_metadata, serialize, X8DsubByteTensors};
use safetensors::{Dtype, Metadata, TensorInfo, TensorView, X8DsubByteError};

fn i32_bytes(values: &[i32]) -> Vec<u8> {
    let mut out = Vec::new();
    for v in values {
        out.extend_from_slice(&v.to_le_bytes());
    }
    out
}

fn header_len(buffer: &[u8]) -> usize {
    let mut arr = [0u8; 8];
    arr.copy_from_slice(&buffer[..8]);
    u64::from_le_bytes(arr) as usize
}

fn info(dtype: Dtype, shape: Vec<usize>, start: usize, end: usize) -> TensorInfo {
    TensorInfo { dtype, shape, data_offsets: (start, end) }
}

fn with_header(header: &str, payload: &[u8]) -> Vec<u8> {
    let mut out = (header.len() as u64).to_le_bytes().to_vec();
    out.extend_from_slice(header.as_bytes());
    out.extend_from_slice(payload);
    out
}

#[test]
fn end_to_end_two_tensors() {
    let a_bytes = i32_bytes(&[0, 1, 2, 3]);
    let b_bytes = vec![7u8];
    let a = TensorView::new(Dtype::I32, vec![2, 2], &a_bytes).unwrap();
    let b = TensorView::new(Dtype::U8, vec![1], &b_bytes).unwrap();
    let out = serialize(vec![("b".to_string(), b), ("a".to_string(), a)], None).unwrap();

    let n = header_len(&out);
    let header = std::str::from_utf8(&out[8..8 + n]).unwrap();
    assert_eq!(
        header.trim_end(),
        r#"{"a":{"dtype":"I32","shape":[2,2],"data_offsets":[0,16]},"b":{"dtype":"U8","shape":[1],"data_offsets":[16,17]}}"#
    );
    assert_eq!(out.len(), 8 + n + 17);

    let loaded = X8DsubByteTensors::deserialize(&out).unwrap();
    assert_eq!(loaded.len(), 2);
    assert!(!loaded.is_empty());
    assert_eq!(loaded.names(), vec!["a", "b"]);
    let ta = loaded.tensor("a").unwrap();
    assert_eq!(ta.dtype(), Dtype::I32);
    assert_eq!(ta.shape(), &[2, 2]);
    assert_eq!(ta.data(), &a_bytes[..]);
    let tb = loaded.tensor("b").unwrap();
    assert_eq!(tb.dtype(), Dtype::U8);
    assert_eq!(tb.shape(), &[1]);
    assert_eq!(tb.data(), &[7u8][..]);
    assert_eq!(loaded.metadata().info("a").unwrap().data_offsets, (0, 16));
    assert_eq!(loaded.metadata().info("b").unwrap().data_offsets, (16, 17));
}

#[test]
fn round_trip_keeps_every_tensor() {
    let x = vec![1u8, 2, 3, 4, 5, 6, 7, 8];
    let y = vec![9u8, 10, 11, 12];
    let z: Vec<u8> = Vec::new();
    let w = vec![0xABu8];
    let inputs = vec![
        ("x".to_string(), Dtype::F64, vec![1usize], x.clone()),
        ("y".to_string(), Dtype::F16, vec![2usize], y.clone()),
        ("z".to_string(), Dtype::F32, vec![0usize, 3], z.clone()),
        ("w".to_string(), Dtype::F4, vec![2usize], w.clone()),
    ];
    let views: Vec<(String, TensorView)> = inputs
        .iter()
        .map(|(n, d, s, b)| (n.clone(), TensorView::new(*d, s.clone(), b).unwrap()))
        .collect();
    let out = serialize(views, None).unwrap();
    let loaded = X8DsubByteTensors::deserialize(&out).unwrap();
    assert_eq!(loaded.len(), 4);
    for (name, dtype, shape, bytes) in &inputs {
        let t = loaded.tensor(name).unwrap();
        assert_eq!(t.dtype(), *dtype);
        assert_eq!(t.shape(), &shape[..]);
        assert_eq!(t.data(), &bytes[..]);
    }
    // Widest first: x (64), z (32), y (16), w (4).
    assert_eq!(loaded.metadata().offset_keys(), vec!["x", "z", "y", "w"]);
    let all = loaded.tensors();
    assert_eq!(all.len(), 4);
    assert_eq!(all[0].0, "x");
    assert_eq!(loaded.iter().len(), 4);
}

#[test]
fn same_class_is_ordered_by_name() {
    let a = vec![0u8; 4];
    let b = vec![1u8; 4];
    let views = vec![
        ("beta".to_string(), TensorView::new(Dtype::I32, vec![1], &a).unwrap()),
        ("alpha".to_string(), TensorView::new(Dtype::F32, vec![1], &b).unwrap()),
    ];
    let out = serialize(views, None).unwrap();
    let loaded = X8DsubByteTensors::deserialize(&out).unwrap();
    assert_eq!(loaded.metadata().offset_keys(), vec!["alpha", "beta"]);
    assert_eq!(loaded.tensor("alpha").unwrap().data(), &b[..]);
}

#[test]
fn header_length_is_multiple_of_eight() {
    for name in ["a", "ab", "abc", "abcd", "abcde", "abcdef", "abcdefg", "abcdefgh"] {
        let d = vec![1u8];
        let views = vec![(name.to_string(), TensorView::new(Dtype::U8, vec![1], &d).unwrap())];
        let out = serialize(views, None).unwrap();
        let n = header_len(&out);
        assert_eq!(n % 8, 0);
        assert!(out[8..8 + n].ends_with(b"}") || out[8 + n - 1] == b' ');
    }
}

#[test]
fn free_form_metadata_is_written_first_and_read_back() {
    let d = vec![5u8];
    let views = vec![("t".to_string(), TensorView::new(Dtype::U8, vec![1], &d).unwrap())];
    let extra = vec![("format".to_string(), "pt".to_string())];
    let out = serialize(views, Some(extra)).unwrap();
    let n = header_len(&out);
    let header = std::str::from_utf8(&out[8..8 + n]).unwrap();
    assert!(header.starts_with(r#"{"__metadata__":{"format":"pt"},"t":"#));
    let loaded = X8DsubByteTensors::deserialize(&out).unwrap();
    let meta = loaded.metadata().metadata().clone().unwrap();
    assert_eq!(meta, vec![("format".to_string(), "pt".to_string())]);
}

#[test]
fn names_are_escaped_in_the_header() {
    let d = vec![5u8];
    let views = vec![("q\"x".to_string(), TensorView::new(Dtype::U8, vec![1], &d).unwrap())];
    let out = serialize(views, None).unwrap();
    let n = header_len(&out);
    let header = std::str::from_utf8(&out[8..8 + n]).unwrap();
    assert!(header.contains(r#""q\"x""#));
    let loaded = X8DsubByteTensors::deserialize(&out).unwrap();
    assert_eq!(loaded.tensor("q\"x").unwrap().data(), &[5u8][..]);
}

#[test]
fn short_buffer_is_header_too_small() {
    assert!(matches!(
        X8DsubByteTensors::deserialize(&[0u8; 7]),
        Err(X8DsubByteError::HeaderTooSmall)
    ));
}

#[test]
fn huge_declared_header_is_too_large() {
    let mut buf = 100_000_001u64.to_le_bytes().to_vec();
    buf.extend_from_slice(b"{}");
    assert!(matches!(read_metadata(&buf), Err(X8DsubByteError::HeaderTooLarge)));
    let mut buf = 100_000_000u64.to_le_bytes().to_vec();
    buf.extend_from_slice(b"{}");
    assert!(matches!(read_metadata(&buf), Err(X8DsubByteError::InvalidHeaderLength)));
}

#[test]
fn header_past_buffer_is_invalid_length() {
    let mut buf = 16u64.to_le_bytes().to_vec();
    buf.extend_from_slice(b"{}");
    assert!(matches!(read_metadata(&buf), Err(X8DsubByteError::InvalidHeaderLength)));
}

#[test]
fn header_that_is_not_utf8_is_invalid() {
    let buf = with_header("\u{0}\u{0}", &[]);
    let mut bad = buf.clone();
    bad[8] = 0xff;
    bad[9] = 0xfe;
    assert!(matches!(read_metadata(&bad), Err(X8DsubByteError::InvalidHeader(_))));
}

#[test]
fn header_that_is_not_json_is_rejected() {
    let buf = with_header("{not json", &[]);
    assert!(matches!(
        read_metadata(&buf),
        Err(X8DsubByteError::InvalidHeaderDeserialization(_))
    ));
    let buf = with_header(r#"{"a":{"dtype":"Q7","shape":[1],"data_offsets":[0,1]}}"#, &[0]);
    assert!(matches!(
        read_metadata(&buf),
        Err(X8DsubByteError::InvalidHeaderDeserialization(_))
    ));
    let buf = with_header(r#"{"a":{"dtype":"U8","shape":[1],"data_offsets":[0]}}"#, &[0]);
    assert!(matches!(
        read_metadata(&buf),
        Err(X8DsubByteError::InvalidHeaderDeserialization(_))
    ));
}

#[test]
fn trailing_byte_is_incomplete_buffer() {
    let d = vec![1u8, 2];
    let views = vec![("t".to_string(), TensorView::new(Dtype::U8, vec![2], &d).unwrap())];
    let mut out = serialize(views, None).unwrap();
    out.push(0);
    assert!(matches!(
        X8DsubByteTensors::deserialize(&out),
        Err(X8DsubByteError::MetadataIncompleteBuffer)
    ));
    out.truncate(out.len() - 2);
    assert!(matches!(
        X8DsubByteTensors::deserialize(&out),
        Err(X8DsubByteError::MetadataIncompleteBuffer)
    ));
}

#[test]
fn entries_out_of_offset_order_are_sorted_on_read() {
    let header = r#"{"late":{"dtype":"U8","shape":[2],"data_offsets":[2,4]},"early":{"dtype":"U8","shape":[2],"data_offsets":[0,2]}}"#;
    let buf = with_header(header, &[1, 2, 3, 4]);
    let loaded = X8DsubByteTensors::deserialize(&buf).unwrap();
    assert_eq!(loaded.metadata().offset_keys(), vec!["early", "late"]);
    assert_eq!(loaded.tensor("late").unwrap().data(), &[3u8, 4][..]);
    assert_eq!(loaded.metadata().data_len(), 4);
}

#[test]
fn unknown_name_is_not_found() {
    let d = vec![1u8];
    let views = vec![("t".to_string(), TensorView::new(Dtype::U8, vec![1], &d).unwrap())];
    let out = serialize(views, None).unwrap();
    let loaded = X8DsubByteTensors::deserialize(&out).unwrap();
    match loaded.tensor("missing") {
        Err(X8DsubByteError::TensorNotFound(name)) => assert_eq!(name, "missing"),
        _ => panic!("expected TensorNotFound"),
    }
}

#[test]
fn first_offset_not_zero_is_invalid_offset() {
    let r = Metadata::new(None, vec![("a".to_string(), info(Dtype::U8, vec![1], 1, 2))]);
    match r {
        Err(X8DsubByteError::InvalidOffset(name)) => assert_eq!(name, "a"),
        _ => panic!("expected InvalidOffset"),
    }
}

#[test]
fn gap_between_tensors_is_invalid_offset() {
    let r = Metadata::new(
        None,
        vec![
            ("a".to_string(), info(Dtype::U8, vec![1], 0, 1)),
            ("b".to_string(), info(Dtype::U8, vec![1], 2, 3)),
        ],
    );
    match r {
        Err(X8DsubByteError::InvalidOffset(name)) => assert_eq!(name, "b"),
        _ => panic!("expected InvalidOffset"),
    }
}

#[test]
fn odd_count_of_four_bit_elements_is_misaligned() {
    let r = Metadata::new(None, vec![("a".to_string(), info(Dtype::F4, vec![3], 0, 2))]);
    assert!(matches!(r, Err(X8DsubByteError::MisalignedSlice)));
    let d = vec![0u8; 2];
    assert!(matches!(
        TensorView::new(Dtype::F4, vec![3], &d),
        Err(X8DsubByteError::MisalignedSlice)
    ));
}

#[test]
fn wrong_size_is_tensor_invalid_info() {
    let r = Metadata::new(None, vec![("a".to_string(), info(Dtype::U16, vec![2], 0, 3))]);
    assert!(matches!(r, Err(X8DsubByteError::TensorInvalidInfo)));
}

#[test]
fn overflowing_shape_is_validation_overflow() {
    let r = Metadata::new(None, vec![("a".to_string(), info(Dtype::U8, vec![usize::MAX, 2], 0, 0))]);
    assert!(matches!(r, Err(X8DsubByteError::ValidationOverflow)));
    let r = Metadata::new(None, vec![("a".to_string(), info(Dtype::U16, vec![usize::MAX], 0, 0))]);
    assert!(matches!(r, Err(X8DsubByteError::ValidationOverflow)));
}

#[test]
fn repeated_name_is_rejected() {
    let r = Metadata::new(
        None,
        vec![
            ("a".to_string(), info(Dtype::U8, vec![1], 0, 1)),
            ("a".to_string(), info(Dtype::U8, vec![1], 1, 2)),
        ],
    );
    match r {
        Err(X8DsubByteError::DuplicateName(name)) => assert_eq!(name, "a"),
        _ => panic!("expected DuplicateName"),
    }
}

#[test]
fn valid_metadata_reports_its_layout() {
    let m = Metadata::new(
        None,
        vec![
            ("a".to_string(), info(Dtype::I32, vec![2], 0, 8)),
            ("b".to_string(), info(Dtype::U8, vec![3], 8, 11)),
        ],
    )
    .unwrap();
    assert_eq!(m.data_len(), 11);
    assert_eq!(m.validate().unwrap(), 11);
    assert_eq!(m.offset_keys(), vec!["a", "b"]);
    assert_eq!(m.info("b").unwrap().shape, vec![3]);
    assert!(m.info("c").is_none());
    assert_eq!(m.tensors().len(), 2);
    assert!(m.metadata().is_none());
}

#[test]
fn empty_container_round_trips() {
    let views: Vec<(String, TensorView)> = Vec::new();
    let out = serialize(views, None).unwrap();
    assert_eq!(header_len(&out), 8);
    let loaded = X8DsubByteTensors::deserialize(&out).unwrap();
    assert!(loaded.is_empty());
    assert_eq!(loaded.metadata().data_len(), 0);
}

#[test]
fn view_with_wrong_byte_count_is_rejected() {
    let d = vec![0u8; 3];
    match TensorView::new(Dtype::U16, vec![2], &d) {
        Err(X8DsubByteError::InvalidTensorView(dtype, shape, n)) => {
            assert_eq!(dtype, Dtype::U16);
            assert_eq!(shape, vec![2]);
            assert_eq!(n, 3);
        }
        _ => panic!("expected InvalidTensorView"),
    }
}

#[test]
fn dtype_widths_and_tags() {
    assert_eq!(Dtype::F4.bitsize(), 4);
    assert_eq!(Dtype::F6_E2M3.bitsize(), 6);
    assert_eq!(Dtype::BF16.bitsize(), 16);
    assert_eq!(Dtype::C64.bitsize(), 64);
    assert_eq!(Dtype::I32.size(), 4);
    assert_eq!(Dtype::F4.size(), 0);
    assert_eq!(Dtype::F8_E4M3.name(), "F8_E4M3");
    assert_eq!(Dtype::from_name("BF16"), Some(Dtype::BF16));
    assert_eq!(Dtype::from_name("bf16"), None);
    assert!(Dtype::U8 < Dtype::U16);
}

#[test]
fn dtype_order_decides_before_name() {
    let a = vec![1u8; 4];
    let b = vec![2u8; 4];
    let views = vec![
        ("a".to_string(), TensorView::new(Dtype::I32, vec![1], &a).unwrap()),
        ("b".to_string(), TensorView::new(Dtype::F32, vec![1], &b).unwrap()),
    ];
    let out = serialize(views, None).unwrap();
    let n = header_len(&out);
    assert_eq!(&out[8 + n..], &[2u8, 2, 2, 2, 1, 1, 1, 1][..]);
    let loaded = X8DsubByteTensors::deserialize(&out).unwrap();
    assert_eq!(loaded.metadata().offset_keys(), vec!["b", "a"]);

    let flags = vec![1u8];
    let nibbles = vec![0x21u8];
    let views = vec![
        ("a".to_string(), TensorView::new(Dtype::BOOL, vec![1], &flags).unwrap()),
        ("b".to_string(), TensorView::new(Dtype::F4, vec![2], &nibbles).unwrap()),
    ];
    let out = serialize(views, None).unwrap();
    let loaded = X8DsubByteTensors::deserialize(&out).unwrap();
    assert_eq!(loaded.metadata().offset_keys(), vec!["b", "a"]);
}

#[test]
fn repeated_free_form_key_is_rejected() {
    let extra = vec![("k".to_string(), "1".to_string()), ("k".to_string(), "2".to_string())];
    match Metadata::new(Some(extra), vec![]) {
        Err(X8DsubByteError::DuplicateName(name)) => assert_eq!(name, "k"),
        _ => panic!("expected DuplicateName"),
    }
}

#[test]
fn control_characters_are_escaped() {
    let d = vec![5u8];
    let views = vec![("a\n\u{1}\\".to_string(), TensorView::new(Dtype::U8, vec![1], &d).unwrap())];
    let out = serialize(views, None).unwrap();
    let n = header_len(&out);
    let header = std::str::from_utf8(&out[8..8 + n]).unwrap();
    assert!(header.starts_with(r#"{"a\n\u0001\\":"#));
    let loaded = X8DsubByteTensors::deserialize(&out).unwrap();
    assert_eq!(loaded.tensor("a\n\u{1}\\").unwrap().data(), &[5u8][..]);
}

#[test]
fn unknown_members_of_an_entry_are_ignored() {
    let header = r#"{"t":{"dtype":"U8","shape":[1],"data_offsets":[0,1],"extra":true},"__metadata__":null}"#;
    let buf = with_header(header, &[9]);
    let loaded = X8DsubByteTensors::deserialize(&buf).unwrap();
    assert_eq!(loaded.tensor("t").unwrap().data(), &[9u8][..]);
    assert!(loaded.metadata().metadata().is_none());
}
