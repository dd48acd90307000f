//! A binary container for named multi-dimensional numeric buffers: an
//! eight-byte little-endian header length, a JSON header padded to a multiple
//! of eight bytes, then the tensors' raw bytes laid end to end.
pub mod codec;
pub mod dtype;
pub mod error;
pub mod header;
pub mod metadata;
pub mod order;
pub mod shape;
pub mod slice;
pub mod view;

pub use codec::{read_metadata, serialize, X8DsubByteTensors};
pub use dtype::Dtype;
pub use error::X8DsubByteError;
pub use metadata::{Metadata, TensorInfo};
pub use slice::{IndexOp, InvalidSlice, SliceBound, SliceIterator, TensorIndexer};
pub use view::{TensorSource, TensorView};
