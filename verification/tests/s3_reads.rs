use aws_sdk_s3::primitives::{AggregatedBytes, ByteStream};
use bytes::Bytes;
use http_body::Frame;
use http_body_util::StreamBody;
use store_bench::range::ByteRange;
use store_bench::s3::{object_size, range_header, tally_chunks, ChunkTally, HeadError};
use store_bench::scan::plan_read_pass;

fn collected(bytes: &'static [u8]) -> AggregatedBytes {
    futures::executor::block_on(ByteStream::from_static(bytes).collect()).unwrap()
}

fn collected_in_chunks(chunks: &[&'static [u8]]) -> AggregatedBytes {
    let frames: Vec<Result<Frame<Bytes>, std::io::Error>> = chunks
        .iter()
        .map(|chunk| Ok(Frame::data(Bytes::from_static(chunk))))
        .collect();
    let body = StreamBody::new(futures::stream::iter(frames));
    futures::executor::block_on(ByteStream::from_body_1_x(body).collect()).unwrap()
}

fn header(start: u64, end: u64) -> Option<String> {
    range_header(ByteRange { start, end })
}

#[test]
fn range_header_names_the_first_and_the_last_byte() {
    assert_eq!(header(0, 33554432), Some("bytes=0-33554431".to_string()));
    assert_eq!(header(40, 80), Some("bytes=40-79".to_string()));
    assert_eq!(header(80, 100), Some("bytes=80-99".to_string()));
    assert_eq!(header(7, 8), Some("bytes=7-7".to_string()));
    assert_eq!(header(0, 1), Some("bytes=0-0".to_string()));
    assert_eq!(
        header(u64::MAX - 1, u64::MAX),
        Some("bytes=18446744073709551614-18446744073709551614".to_string())
    );
}

#[test]
fn empty_range_has_no_header() {
    assert_eq!(header(0, 0), None);
    assert_eq!(header(40, 40), None);
    assert_eq!(header(80, 40), None);
}

#[test]
fn headers_of_a_read_pass_ask_for_every_byte_once() {
    let lanes = plan_read_pass(100, 40, 2).unwrap();
    let mut hits = vec![0u32; 100];
    let mut texts = Vec::new();
    for lane in &lanes {
        for r in lane {
            let text = range_header(*r).unwrap();
            let bounds = text.strip_prefix("bytes=").unwrap();
            let (first, last) = bounds.split_once('-').unwrap();
            let first: usize = first.parse().unwrap();
            let last: usize = last.parse().unwrap();
            for b in first..=last {
                hits[b] += 1;
            }
            texts.push(text);
        }
    }
    assert!(hits.iter().all(|&h| h == 1));
    texts.sort();
    assert_eq!(texts, vec!["bytes=0-39", "bytes=40-79", "bytes=80-99"]);
}

#[test]
fn object_size_is_the_content_length() {
    assert_eq!(object_size(Some(0)), Ok(0));
    assert_eq!(object_size(Some(1024)), Ok(1024));
    assert_eq!(object_size(Some(i64::MAX)), Ok(i64::MAX as u64));
}

#[test]
fn head_without_a_length_gives_no_size() {
    assert_eq!(object_size(None), Err(HeadError::MissingContentLength));
}

#[test]
fn negative_length_keeps_its_bits() {
    assert_eq!(object_size(Some(-1)), Ok(u64::MAX));
    assert_eq!(object_size(Some(i64::MIN)), Ok(1u64 << 63));
}

#[test]
fn body_in_one_chunk_is_tallied() {
    assert_eq!(
        tally_chunks(collected(b"hello world")),
        ChunkTally { num_bytes: 11, num_chunks: 1 }
    );
}

#[test]
fn empty_body_has_no_chunk() {
    assert_eq!(
        tally_chunks(collected(b"")),
        ChunkTally { num_bytes: 0, num_chunks: 0 }
    );
}

#[test]
fn body_in_several_chunks_is_tallied_chunk_by_chunk() {
    assert_eq!(
        tally_chunks(collected_in_chunks(&[b"ab", b"cde", b"f"])),
        ChunkTally { num_bytes: 6, num_chunks: 3 }
    );
}

#[test]
fn empty_chunks_are_not_counted() {
    assert_eq!(
        tally_chunks(collected_in_chunks(&[b"", b"ab", b"", b"", b"cde", b""])),
        ChunkTally { num_bytes: 5, num_chunks: 2 }
    );
    assert_eq!(
        tally_chunks(collected_in_chunks(&[b"", b""])),
        ChunkTally { num_bytes: 0, num_chunks: 0 }
    );
    assert_eq!(
        tally_chunks(collected_in_chunks(&[])),
        ChunkTally { num_bytes: 0, num_chunks: 0 }
    );
}
