//! The buffer that upload parts are cut from.
//!
//! What a part holds does not matter to a throughput measurement, only how
//! long it is. So one buffer is made up front, as long as the longest part,
//! and every part is a leading slice of it that shares its memory.

use vstd::prelude::*;
use crate::upload::PartSchedule;

verus! {

/// `bytes::Bytes`, a shared handle to a run of bytes, as an opaque type.
#[verifier::external_type_specification]
#[verifier::external_body]
pub struct ExBytes(bytes::Bytes);

/// The bytes that a `bytes::Bytes` handle gives access to, in order.
pub uninterp spec fn bytes_of(data: bytes::Bytes) -> Seq<u8>;

/// `bytes::Bytes::len` returns the number of bytes that the handle gives
/// access to.
pub assume_specification[ bytes::Bytes::len ](data: &bytes::Bytes) -> (n: usize)
    ensures
        n == bytes_of(*data).len(),
;

/// `bytes::BytesMut::zeroed`, frozen: a handle to `len` bytes that are all
/// zero. Lengths above `isize::MAX`, which the allocation behind it refuses,
/// are left out.
#[verifier::external_body]
fn zeroed_bytes(len: usize) -> (data: bytes::Bytes)
    requires
        len <= isize::MAX,
    ensures
        bytes_of(data) == Seq::new(len as nat, |i: int| 0u8),
{
    bytes::BytesMut::zeroed(len).freeze()
}

/// `bytes::Bytes::slice` on the range `0..len`: a handle to the first `len`
/// bytes of `data`. The call panics where `len` is above the length of
/// `data`, so that is left out.
#[verifier::external_body]
fn leading_bytes(data: &bytes::Bytes, len: usize) -> (part: bytes::Bytes)
    requires
        len <= bytes_of(*data).len(),
    ensures
        bytes_of(part) == bytes_of(*data).subrange(0, len as int),
{
    data.slice(0..len)
}

/// A buffer of zero bytes that upload parts are cut from.
pub struct PartBuffer {
    data: bytes::Bytes,
}

impl View for PartBuffer {
    type V = Seq<u8>;

    closed spec fn view(&self) -> Seq<u8> {
        bytes_of(self.data)
    }
}

impl PartBuffer {
    /// A buffer of `len` zero bytes, or `None` where `len` is more than can
    /// be allocated at once.
    pub fn zeroed(len: u64) -> (buffer: Option<PartBuffer>)
        ensures
            buffer is Some <==> len <= isize::MAX,
            buffer matches Some(b) ==> b@ == Seq::new(len as nat, |i: int| 0u8),
    {
        if len > isize::MAX as u64 {
            None
        } else {
            Some(PartBuffer { data: zeroed_bytes(len as usize) })
        }
    }

    /// The buffer that the parts of `schedule` are cut from, or `None` where
    /// its length is more than can be allocated at once.
    pub fn for_schedule(schedule: &PartSchedule) -> (buffer: Option<PartBuffer>)
        ensures
            buffer is Some <==> schedule.buffer_len() <= isize::MAX,
            buffer matches Some(b) ==> b@ == Seq::new(
                schedule.buffer_len() as nat,
                |i: int| 0u8,
            ),
    {
        match schedule.buffer_capacity() {
            Some(len) => PartBuffer::zeroed(len),
            None => None,
        }
    }

    /// Number of bytes in the buffer.
    pub fn len(&self) -> (n: usize)
        ensures
            n == self@.len(),
    {
        self.data.len()
    }

    /// The payload of a part of `size` bytes: the first `size` bytes of the
    /// buffer, or `None` where the buffer is shorter than that.
    pub fn part(&self, size: u64) -> (payload: Option<bytes::Bytes>)
        ensures
            payload is Some <==> size <= self@.len(),
            payload matches Some(p) ==> bytes_of(p) == self@.subrange(0, size as int),
    {
        let len: usize = self.data.len();
        if size > len as u64 {
            None
        } else {
            Some(leading_bytes(&self.data, size as usize))
        }
    }
}

} // verus!
