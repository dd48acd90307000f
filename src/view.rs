//! Zero-copy views of tensors, and the capabilities a tensor source offers.
use crate::dtype::{bits_of, Dtype};
use crate::error::X8DsubByteError;
use crate::metadata::{bit_count, size_overflows};
use crate::shape::checked_product;
use crate::slice::{slice_outcome, InvalidSlice, SliceIterator, TensorIndexer};
use vstd::prelude::*;

verus! {

/// What the writer needs of a tensor: its dtype, its shape and its bytes.
/// The bytes may live elsewhere (on a device, say) and be copied out on
/// request.
pub trait TensorSource {
    /// The dtype, as a mathematical value.
    spec fn spec_dtype(&self) -> Dtype;

    /// The shape, as a mathematical value.
    spec fn spec_shape(&self) -> Seq<usize>;

    /// The bytes, as a mathematical value.
    spec fn spec_data(&self) -> Seq<u8>;

    /// The dtype of the tensor.
    fn dtype(&self) -> (r: Dtype)
        ensures
            r == self.spec_dtype(),
    ;

    /// The shape of the tensor.
    fn shape(&self) -> (r: &[usize])
        ensures
            r@ == self.spec_shape(),
    ;

    /// The bytes of the tensor.
    fn data(&self) -> (r: Vec<u8>)
        ensures
            r@ == self.spec_data(),
    ;

    /// The number of bytes, which may be cheaper to get than the bytes.
    fn data_len(&self) -> (r: usize)
        ensures
            r == self.spec_data().len(),
    ;
}

/// A tensor as a mathematical value.
pub struct TensorModel {
    pub dtype: Dtype,
    pub shape: Seq<usize>,
    pub data: Seq<u8>,
}

/// Whether `data` holds exactly the bytes of `shape` elements of `dtype`.
pub open spec fn fits(dtype: Dtype, shape: Seq<usize>, data: Seq<u8>) -> bool {
    &&& !size_overflows(dtype, shape)
    &&& bit_count(dtype, shape) % 8 == 0
    &&& data.len() == bit_count(dtype, shape) / 8
}

/// A read-only view of one tensor in a borrowed buffer.
#[derive(Debug)]
pub struct TensorView<'data> {
    dtype: Dtype,
    shape: Vec<usize>,
    data: &'data [u8],
}

impl<'data> View for TensorView<'data> {
    type V = TensorModel;

    closed spec fn view(&self) -> TensorModel {
        TensorModel { dtype: self.dtype, shape: self.shape@, data: self.data@ }
    }
}

impl<'data> TensorView<'data> {
    #[verifier::type_invariant]
    spec fn inv(&self) -> bool {
        fits(self.dtype, self.shape@, self.data@)
    }

    /// A view of `data` as `shape` elements of `dtype`; fails unless the byte
    /// count is exact.
    pub fn new(dtype: Dtype, shape: Vec<usize>, data: &'data [u8]) -> (r: Result<
        Self,
        X8DsubByteError,
    >)
        ensures
            size_overflows(dtype, shape@) ==> r matches Err(X8DsubByteError::ValidationOverflow),
            !size_overflows(dtype, shape@) && bit_count(dtype, shape@) % 8 != 0 ==> r matches Err(
                X8DsubByteError::MisalignedSlice,
            ),
            !size_overflows(dtype, shape@) && bit_count(dtype, shape@) % 8 == 0 && data@.len()
                != bit_count(dtype, shape@) / 8 ==> (r matches Err(
                X8DsubByteError::InvalidTensorView(d, s, n),
            ) && d == dtype && s@ == shape@ && n == data@.len()),
            fits(dtype, shape@, data@) ==> (r matches Ok(v) && v@ == (TensorModel {
                dtype,
                shape: shape@,
                data: data@,
            })),
    {
        let n_elements = match checked_product(shape.as_slice()) {
            Some(p) => p,
            None => {
                return Err(X8DsubByteError::ValidationOverflow);
            },
        };
        let nbits = match n_elements.checked_mul(dtype.bitsize()) {
            Some(b) => b,
            None => {
                return Err(X8DsubByteError::ValidationOverflow);
            },
        };
        if nbits % 8 != 0 {
            return Err(X8DsubByteError::MisalignedSlice);
        }
        let size = nbits / 8;
        if data.len() != size {
            let n = data.len();
            Err(X8DsubByteError::InvalidTensorView(dtype, shape, n))
        } else {
            Ok(TensorView { dtype, shape, data })
        }
    }

    /// The dtype.
    pub fn dtype(&self) -> (r: Dtype)
        ensures
            r == self@.dtype,
    {
        self.dtype
    }

    /// The shape. (Every view's bytes fit its dtype and shape.)
    pub fn shape(&self) -> (r: &[usize])
        ensures
            r@ == self@.shape,
            fits(self@.dtype, self@.shape, self@.data),
    {
        proof {
            use_type_invariant(self);
        }
        self.shape.as_slice()
    }

    /// The bytes, borrowed from the buffer the view was made on.
    pub fn data(&self) -> (r: &'data [u8])
        ensures
            r@ == self@.data,
    {
        self.data
    }

    /// The number of bytes.
    pub fn data_len(&self) -> (r: usize)
        ensures
            r == self@.data.len(),
    {
        self.data.len()
    }

    /// The elements selected by `slices`, one dimension each, as byte slices.
    pub fn sliced_data(&'data self, slices: &[TensorIndexer]) -> (r: Result<
        SliceIterator<'data>,
        InvalidSlice,
    >)
        ensures
            match slice_outcome(self@, slices@) {
                Ok(m) => r matches Ok(it) && it@ == m,
                Err(e) => r == Err::<SliceIterator<'data>, InvalidSlice>(e),
            },
    {
        SliceIterator::new(self, slices)
    }
}

impl<'data> TensorSource for TensorView<'data> {
    open spec fn spec_dtype(&self) -> Dtype {
        self@.dtype
    }

    open spec fn spec_shape(&self) -> Seq<usize> {
        self@.shape
    }

    open spec fn spec_data(&self) -> Seq<u8> {
        self@.data
    }

    fn dtype(&self) -> (r: Dtype) {
        self.dtype
    }

    fn shape(&self) -> (r: &[usize]) {
        self.shape.as_slice()
    }

    fn data(&self) -> (r: Vec<u8>) {
        vstd::slice::slice_to_vec(self.data)
    }

    fn data_len(&self) -> (r: usize) {
        self.data.len()
    }
}

} // verus!
