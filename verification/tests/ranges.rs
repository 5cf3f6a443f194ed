use store_bench::range::{split_ranges, ByteRange};

fn range(start: u64, end: u64) -> ByteRange {
    ByteRange { start, end }
}

#[test]
fn last_range_is_cut_back_to_the_object_length() {
    let ranges = split_ranges(100, 40);
    assert_eq!(ranges, vec![range(0, 40), range(40, 80), range(80, 100)]);
}

#[test]
fn exact_multiple_gives_full_ranges_only() {
    let ranges = split_ranges(1024, 256);
    assert_eq!(
        ranges,
        vec![range(0, 256), range(256, 512), range(512, 768), range(768, 1024)]
    );
}

#[test]
fn empty_object_gives_no_range() {
    assert_eq!(split_ranges(0, 32), Vec::<ByteRange>::new());
}

#[test]
fn chunk_longer_than_object_gives_one_range() {
    assert_eq!(split_ranges(7, 1000), vec![range(0, 7)]);
}

#[test]
fn one_byte_chunks_give_one_range_per_byte() {
    let ranges = split_ranges(5, 1);
    assert_eq!(ranges.len(), 5);
    for (i, r) in ranges.iter().enumerate() {
        assert_eq!(*r, range(i as u64, i as u64 + 1));
    }
}

#[test]
fn ranges_cover_every_byte_exactly_once() {
    for &(total, chunk) in &[(1000u64, 64u64), (1000, 1000), (1001, 1000), (999, 7), (64, 64)] {
        let ranges = split_ranges(total, chunk);
        let mut hits = vec![0u32; total as usize];
        for r in &ranges {
            assert!(r.start < r.end);
            assert!(r.end <= total);
            assert!(r.end - r.start <= chunk);
            for b in r.start..r.end {
                hits[b as usize] += 1;
            }
        }
        assert!(hits.iter().all(|&h| h == 1));
        assert_eq!(ranges.len() as u64, (total + chunk - 1) / chunk);
    }
}

#[test]
fn ranges_follow_one_another() {
    let ranges = split_ranges(1 << 30, 32 << 20);
    assert_eq!(ranges.len(), 32);
    assert_eq!(ranges[0].start, 0);
    for pair in ranges.windows(2) {
        assert_eq!(pair[0].end, pair[1].start);
    }
    assert_eq!(ranges[31].end, 1 << 30);
}

#[test]
fn split_near_the_top_of_the_offsets_does_not_wrap() {
    let ranges = split_ranges(u64::MAX, u64::MAX - 1);
    assert_eq!(ranges, vec![range(0, u64::MAX - 1), range(u64::MAX - 1, u64::MAX)]);
}

#[test]
fn same_size_gives_the_same_ranges_again() {
    assert_eq!(split_ranges(12345, 100), split_ranges(12345, 100));
}

#[test]
fn range_length() {
    assert_eq!(range(40, 100).len(), 60);
    assert_eq!(range(5, 5).len(), 0);
    assert_eq!(range(9, 3).len(), 0);
    assert!(range(5, 5).is_empty());
    assert!(range(9, 3).is_empty());
    assert!(!range(3, 9).is_empty());
}
