//! Host-side data handling for a GPU compute round trip: records laid out as
//! 32-bit words, words as little-endian bytes, the dispatch plan of a kernel
//! run and the decoding of the buffer that is read back.

pub mod words;
pub mod records;
pub mod dispatch;

pub use dispatch::{plan_dispatch, read_back, shader_words, DispatchPlan, WORKGROUP_SIZE};
pub use records::{bytes_to_opaque_array, opaque_array_to_bytes, DeviceRecord, Ray, TestVec};
