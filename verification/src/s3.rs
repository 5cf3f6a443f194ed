//! The pieces of a ranged download through the S3 client: the size of the
//! object from its head, the text of a range header, and the tally of a
//! body that arrived in chunks.
//!
//! A range header names the first and the last byte that it asks for, so the
//! header for the half-open range `[start, end)` ends with `end - 1`. Two
//! ranges that share no byte are asked for by headers that share none.

use bytes::Buf;
use vstd::prelude::*;
use vstd::string::*;
use crate::decimal::{decimal, to_decimal};
use crate::range::ByteRange;

verus! {

/// `aws_sdk_s3::primitives::AggregatedBytes`, a body that was collected as
/// the segments in which it arrived, as an opaque type.
#[verifier::external_type_specification]
#[verifier::external_body]
pub struct ExAggregatedBytes(aws_sdk_s3::primitives::AggregatedBytes);

/// The chunks of a collected body that are still to be read, in order: its
/// segments that are not empty, the first one from where reading stands.
pub uninterp spec fn chunks_left(body: aws_sdk_s3::primitives::AggregatedBytes) -> Seq<Seq<u8>>;

/// `bytes::Buf::remaining` on a collected body: the number of bytes still to
/// be read, which is the sum of the lengths of the chunks left. It is zero
/// exactly when no chunk is left, since no chunk left is empty.
#[verifier::external_body]
fn bytes_left(body: &aws_sdk_s3::primitives::AggregatedBytes) -> (n: usize)
    ensures
        n == total_len(chunks_left(*body)),
        n == 0 <==> chunks_left(*body).len() == 0,
{
    body.remaining()
}

/// `bytes::Buf::chunk` on a collected body, taken by its length: the length
/// of the first chunk left, and zero where none is left.
#[verifier::external_body]
fn first_chunk_len(body: &aws_sdk_s3::primitives::AggregatedBytes) -> (n: usize)
    ensures
        chunks_left(*body).len() == 0 ==> n == 0,
        chunks_left(*body).len() > 0 ==> n == chunks_left(*body)[0].len() && n > 0,
{
    body.chunk().len()
}

/// `bytes::Buf::advance` on a collected body, by the whole length of the
/// first chunk left: that chunk is dropped and the others stay as they are.
#[verifier::external_body]
fn skip_first_chunk(body: &mut aws_sdk_s3::primitives::AggregatedBytes, len: usize)
    requires
        chunks_left(*old(body)).len() > 0,
        len == chunks_left(*old(body))[0].len(),
    ensures
        chunks_left(*final(body)) == chunks_left(*old(body)).drop_first(),
{
    body.advance(len)
}

/// Sum of the lengths of the chunks.
pub open spec fn total_len(chunks: Seq<Seq<u8>>) -> nat
    decreases chunks.len(),
{
    if chunks.len() == 0 {
        0
    } else {
        chunks[0].len() + total_len(chunks.drop_first())
    }
}

/// What a download brought: how many bytes, in how many chunks.
#[derive(Clone, Copy, Debug, PartialEq, Eq, Structural)]
pub struct ChunkTally {
    pub num_bytes: usize,
    pub num_chunks: usize,
}

/// Why the head of an object does not give its size.
#[derive(Clone, Copy, Debug, PartialEq, Eq, Structural)]
pub enum HeadError {
    /// The head carries no content length.
    MissingContentLength,
}

/// The unsigned number with the same 64 bits as `n`.
pub open spec fn as_unsigned(n: i64) -> int {
    if n >= 0 {
        n as int
    } else {
        n + 0x1_0000_0000_0000_0000
    }
}

/// Offset of the last byte of a range that is not empty.
pub open spec fn last_byte(range: ByteRange) -> int {
    range.end - 1
}

/// The text of the range header for a range that is not empty: `bytes=`, the
/// offset of the first byte, `-`, the offset of the last byte, both in
/// decimal.
pub open spec fn range_header_text(range: ByteRange) -> Seq<char> {
    seq!['b', 'y', 't', 'e', 's', '='] + decimal(range.start as nat) + seq!['-'] + decimal(
        last_byte(range) as nat,
    )
}

/// Reads a collected body to its end, chunk by chunk, and counts the bytes
/// and the chunks.
pub fn tally_chunks(body: aws_sdk_s3::primitives::AggregatedBytes) -> (tally: ChunkTally)
    ensures
        tally.num_bytes == total_len(chunks_left(body)),
        tally.num_chunks == chunks_left(body).len(),
{
    let mut rest = body;
    let mut num_bytes: usize = 0;
    let mut num_chunks: usize = 0;
    let mut left: usize = bytes_left(&rest);
    while left > 0
        invariant
            left == total_len(chunks_left(rest)),
            left == 0 <==> chunks_left(rest).len() == 0,
            total_len(chunks_left(body)) <= usize::MAX,
            num_bytes + left == total_len(chunks_left(body)),
            num_chunks + chunks_left(rest).len() == chunks_left(body).len(),
            num_chunks <= num_bytes,
        decreases chunks_left(rest).len(),
    {
        let len: usize = first_chunk_len(&rest);
        assert(total_len(chunks_left(rest)) == len + total_len(chunks_left(rest).drop_first()));
        num_bytes = num_bytes + len;
        num_chunks = num_chunks + 1;
        skip_first_chunk(&mut rest, len);
        left = bytes_left(&rest);
    }
    ChunkTally { num_bytes, num_chunks }
}

/// The size of an object as its head tells it. A head without a content
/// length gives no size; a negative length is taken as the unsigned number
/// with the same bits.
pub fn object_size(content_length: Option<i64>) -> (size: Result<u64, HeadError>)
    ensures
        content_length is None <==> size == Err::<u64, HeadError>(
            HeadError::MissingContentLength,
        ),
        content_length matches Some(n) ==> size == Ok::<u64, HeadError>(as_unsigned(n) as u64),
{
    match content_length {
        None => Err(HeadError::MissingContentLength),
        Some(n) => {
            assert(n >= 0 ==> (n as u64) == n) by (bit_vector);
            assert(n < 0 ==> (n as u64) as int == n + 0x1_0000_0000_0000_0000) by (bit_vector);
            Ok(
                #[verifier::truncate]
                (n as u64),
            )
        },
    }
}

/// The range header that asks for exactly the bytes of `range`, or `None`
/// where the range is empty: a header cannot ask for no byte.
pub fn range_header(range: ByteRange) -> (header: Option<String>)
    ensures
        header is None <==> range.end <= range.start,
        header matches Some(text) ==> text@ == range_header_text(range),
{
    if range.end <= range.start {
        return None;
    }
    proof {
        reveal_strlit("bytes=");
        reveal_strlit("-");
    }
    let mut text = String::from_str("bytes=");
    let first = to_decimal(range.start);
    text.append(first.as_str());
    text.append("-");
    let last = to_decimal(range.end - 1);
    text.append(last.as_str());
    assert(text@ =~= range_header_text(range));
    Some(text)
}

} // verus!
