use safetensors::{Dtype, IndexOp, InvalidSlice, SliceBound, SliceIterator, TensorIndexer, TensorView};

#[test]
fn test_single_element_slice() {
    let data = vec![0u8; 24]; // 2*3*4 elements of u8
    let tensor = TensorView::new(Dtype::U8, vec![2, 3, 4], &data).unwrap();
    let slices = [TensorIndexer::new().mul(0usize.into())]; // Get first dimension
    let mut iter = SliceIterator::new(&tensor, &slices).unwrap();
    // Fixing the first coordinate leaves 3 * 4 elements.
    for _ in 0..12 {
        assert!(iter.next().is_some());
    }
    assert!(iter.next().is_none());
}

#[test]
fn test_range_slice() {
    let data = vec![0u8; 24]; // 2*3*4 elements of u8
    let tensor = TensorView::new(Dtype::U8, vec![2, 3, 4], &data).unwrap();
    let range = 1..3;
    let slices = [TensorIndexer::new().mul(range.into())];
    // The first dimension has size 2, so the range 1..3 reaches past it.
    match SliceIterator::new(&tensor, &slices) {
        Err(InvalidSlice::SliceOutOfRange { dim_index, asked, dim_size }) => {
            assert_eq!(dim_index, 0);
            assert_eq!(asked, 3);
            assert_eq!(dim_size, 2);
        }
        _ => panic!("Wrong error type"),
    }
}

#[test]
fn test_out_of_bounds() {
    let data = vec![0u8; 24]; // 2*3*4 elements of u8
    let tensor = TensorView::new(Dtype::U8, vec![2, 3, 4], &data).unwrap();
    let slices = [TensorIndexer::new().mul(5usize.into())]; // Index 5 is out of bounds for dim of size 2
    let result = SliceIterator::new(&tensor, &slices);
    assert!(result.is_err());
    match result.err().unwrap() {
        InvalidSlice::SliceOutOfRange { dim_index, asked, dim_size } => {
            assert_eq!(dim_index, 0);
            assert_eq!(asked, 5);
            assert_eq!(dim_size, 2);
        }
        _ => panic!("Wrong error type"),
    }
}

fn collect(iter: &mut SliceIterator<'_>) -> Vec<u8> {
    let mut out = Vec::new();
    while let Some(b) = iter.next() {
        out.extend_from_slice(b);
    }
    out
}

#[test]
fn index_one_on_first_dimension_yields_second_half() {
    let data: Vec<u8> = (0..24).collect();
    let tensor = TensorView::new(Dtype::U8, vec![2, 3, 4], &data).unwrap();
    let slices = [TensorIndexer::new().mul(1usize.into())];
    let mut iter = SliceIterator::new(&tensor, &slices).unwrap();
    let got = collect(&mut iter);
    assert_eq!(got, (12..24).collect::<Vec<u8>>());
}

#[test]
fn too_many_slices_for_rank_three() {
    let data = vec![0u8; 24];
    let tensor = TensorView::new(Dtype::U8, vec![2, 3, 4], &data).unwrap();
    let slices = [TensorIndexer::new(), TensorIndexer::new(), TensorIndexer::new(), TensorIndexer::new()];
    assert_eq!(SliceIterator::new(&tensor, &slices).err(), Some(InvalidSlice::TooManySlices));
}

#[test]
fn sub_range_with_offset_start_walks_selected_coordinates() {
    let data: Vec<u8> = (0..24).collect();
    let tensor = TensorView::new(Dtype::U8, vec![2, 3, 4], &data).unwrap();
    let slices = [TensorIndexer::new(), TensorIndexer::new().mul((1..3).into())];
    let mut iter = tensor.sliced_data(&slices).unwrap();
    let got = collect(&mut iter);
    let mut want = Vec::new();
    for i in 0..2u8 {
        for j in 1..3u8 {
            for k in 0..4u8 {
                want.push(i * 12 + j * 4 + k);
            }
        }
    }
    assert_eq!(got, want);
}

#[test]
fn narrow_last_dimension_and_wide_elements() {
    // 2 x 3 tensor of u16, elements numbered 0..6.
    let mut data = Vec::new();
    for v in 0u16..6 {
        data.extend_from_slice(&v.to_le_bytes());
    }
    let tensor = TensorView::new(Dtype::U16, vec![2, 3], &data).unwrap();
    let slices = [
        TensorIndexer::new().mul(IndexOp::Slice(SliceBound::Excluded(0), SliceBound::Unbounded)),
        TensorIndexer::new().mul(IndexOp::Slice(SliceBound::Included(1), SliceBound::Included(2))),
    ];
    let mut iter = SliceIterator::new(&tensor, &slices).unwrap();
    let first = iter.next().unwrap();
    assert_eq!(first, &4u16.to_le_bytes()[..]);
    let second = iter.next().unwrap();
    assert_eq!(second, &5u16.to_le_bytes()[..]);
    assert!(iter.next().is_none());
}

#[test]
fn empty_range_yields_nothing() {
    let data = vec![0u8; 6];
    let tensor = TensorView::new(Dtype::U8, vec![2, 3], &data).unwrap();
    let slices = [TensorIndexer::new().mul((1..1).into())];
    let mut iter = SliceIterator::new(&tensor, &slices).unwrap();
    assert!(iter.next().is_none());
}

#[test]
fn start_past_end_is_out_of_range() {
    let data = vec![0u8; 6];
    let tensor = TensorView::new(Dtype::U8, vec![2, 3], &data).unwrap();
    let slices = [
        TensorIndexer::new(),
        TensorIndexer::new().mul(IndexOp::Slice(SliceBound::Included(2), SliceBound::Excluded(1))),
    ];
    assert_eq!(
        SliceIterator::new(&tensor, &slices).err(),
        Some(InvalidSlice::SliceOutOfRange { dim_index: 1, asked: 1, dim_size: 3 })
    );
}

#[test]
fn sub_byte_dtype_cannot_be_sliced() {
    let data = vec![0u8; 2];
    let tensor = TensorView::new(Dtype::F4, vec![4], &data).unwrap();
    let slices = [TensorIndexer::new()];
    assert_eq!(SliceIterator::new(&tensor, &slices).err(), Some(InvalidSlice::MisalignedSlice));
}

#[test]
fn scalar_tensor_yields_one_element() {
    let data = vec![1u8, 2, 3, 4];
    let tensor = TensorView::new(Dtype::F32, vec![], &data).unwrap();
    let mut iter = SliceIterator::new(&tensor, &[]).unwrap();
    assert_eq!(iter.next().unwrap(), &[1u8, 2, 3, 4][..]);
    assert!(iter.next().is_none());
}
