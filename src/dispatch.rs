//! One kernel run: the kernel binary, the dispatch plan and the result that
//! is read back.

use crate::records::{bytes_to_opaque_array, decodes_to, DeviceRecord};
use crate::words::{bytes_to_words, le_bytes_to_words, lemma_bytes_round_trip, words_to_bytes};
use vstd::prelude::*;

verus! {

/// Invocations in one workgroup of the kernel.
pub const WORKGROUP_SIZE: u32 = 64;

/// What the host asks of the device for one run.
#[derive(Clone, Copy, Debug, PartialEq, Eq, Structural)]
pub struct DispatchPlan {
    /// Size in bytes of the storage buffer and of the readback buffer.
    pub buffer_size: u64,
    /// Workgroups dispatched along x; one along y and z.
    pub workgroups: u32,
}

/// The plan for `record_count` records whose byte image is `byte_len` bytes
/// long: buffers of that size, and one workgroup for each whole group of
/// `WORKGROUP_SIZE` records, the count taken as a 32-bit value.
pub fn plan_dispatch(byte_len: usize, record_count: usize) -> (p: DispatchPlan)
    ensures
        p.buffer_size == byte_len,
        p.workgroups == (record_count as u32) / WORKGROUP_SIZE,
{
    DispatchPlan { buffer_size: byte_len as u64, workgroups: (record_count as u32) / WORKGROUP_SIZE }
}

/// The words of a kernel binary, or `None` when its length is not a whole
/// number of words.
pub fn shader_words(blob: &[u8]) -> (r: Option<Vec<u32>>)
    ensures
        r.is_some() <==> blob@.len() % 4 == 0,
        r.is_some() ==> r.unwrap()@ == bytes_to_words(blob@),
        r.is_some() ==> words_to_bytes(r.unwrap()@) == blob@,
{
    if blob.len() % 4 == 0 {
        proof {
            lemma_bytes_round_trip(blob@);
        }
        Some(le_bytes_to_words(blob))
    } else {
        None
    }
}

/// The outcome of a run: the records that the mapped readback buffer holds,
/// or `None` when the buffer could not be mapped.
pub fn read_back<T: DeviceRecord>(mapped: Option<&[u8]>) -> (r: Option<Vec<T>>)
    ensures
        r.is_some() <==> mapped.is_some(),
        mapped.is_some() ==> decodes_to(mapped.unwrap()@, r.unwrap()@),
{
    match mapped {
        Some(bytes) => Some(bytes_to_opaque_array(bytes)),
        None => None,
    }
}

} // verus!
