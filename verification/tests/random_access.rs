use store_bench::random_access::{row_ids, AccessError, PointRead, TableLayout};
use store_bench::range::ByteRange;

fn read(row: u64, file_id: u64, start: u64, end: u64) -> PointRead {
    PointRead { row, file_id, range: ByteRange { start, end } }
}

#[test]
fn layout_keeps_what_it_is_made_of() {
    let layout = TableLayout::new(10, 1_000_000, 8).unwrap();
    assert_eq!(layout.num_files(), 10);
    assert_eq!(layout.num_rows(), 1_000_000);
    assert_eq!(layout.bytes_per_row(), 8);
    assert_eq!(layout.rows_per_file(), 100_000);
    assert_eq!(layout.file_size(), 800_000);
}

#[test]
fn layout_over_no_file_is_refused() {
    assert_eq!(TableLayout::new(0, 100, 8), Err(AccessError::NoFiles));
    assert_eq!(TableLayout::new(0, 0, 0), Err(AccessError::NoFiles));
}

#[test]
fn layout_with_files_too_large_is_refused() {
    assert_eq!(
        TableLayout::new(1, u64::MAX, 2),
        Err(AccessError::FileTooLarge)
    );
    assert!(TableLayout::new(2, u64::MAX, 2).is_ok());
    assert!(TableLayout::new(1, u64::MAX, 1).is_ok());
}

#[test]
fn every_file_is_uploaded_in_full() {
    let layout = TableLayout::new(3, 10, 8).unwrap();
    assert_eq!(layout.rows_per_file(), 3);
    assert_eq!(layout.upload_size(0), Some(24));
    assert_eq!(layout.upload_size(1), Some(24));
    assert_eq!(layout.upload_size(2), Some(24));
    assert_eq!(layout.upload_size(3), None);
    let even = TableLayout::new(10, 1000, 8).unwrap();
    for file_id in 0..10 {
        assert_eq!(even.upload_size(file_id), Some(800));
    }
}

#[test]
fn row_is_found_in_its_file() {
    let layout = TableLayout::new(10, 1000, 8).unwrap();
    assert_eq!(layout.locate(0), Ok(read(0, 0, 0, 8)));
    assert_eq!(layout.locate(99), Ok(read(99, 0, 792, 800)));
    assert_eq!(layout.locate(100), Ok(read(100, 1, 0, 8)));
    assert_eq!(layout.locate(257), Ok(read(257, 2, 456, 464)));
    assert_eq!(layout.locate(999), Ok(read(999, 9, 792, 800)));
}

#[test]
fn row_past_the_last_file_is_refused() {
    let layout = TableLayout::new(10, 1000, 8).unwrap();
    assert_eq!(
        layout.locate(1000),
        Err(AccessError::FileIndexOutOfRange { row: 1000, file_id: 10 })
    );
    let uneven = TableLayout::new(3, 10, 8).unwrap();
    assert_eq!(uneven.locate(8), Ok(read(8, 2, 16, 24)));
    assert_eq!(
        uneven.locate(9),
        Err(AccessError::FileIndexOutOfRange { row: 9, file_id: 3 })
    );
}

#[test]
fn rows_of_empty_files_have_no_place() {
    let layout = TableLayout::new(10, 5, 8).unwrap();
    assert_eq!(layout.rows_per_file(), 0);
    assert_eq!(layout.file_size(), 0);
    assert_eq!(layout.locate(0), Err(AccessError::EmptyFiles));
    assert_eq!(layout.locate(4), Err(AccessError::EmptyFiles));
}

#[test]
fn rows_of_no_bytes_give_empty_ranges() {
    let layout = TableLayout::new(2, 10, 0).unwrap();
    assert_eq!(layout.locate(7), Ok(read(7, 1, 0, 0)));
}

#[test]
fn reads_of_one_file_do_not_overlap() {
    let layout = TableLayout::new(4, 64, 3).unwrap();
    let mut hits = vec![vec![0u32; layout.file_size() as usize]; 4];
    for row in 0..64 {
        let found = layout.locate(row).unwrap();
        assert!(found.range.end <= layout.file_size());
        for b in found.range.start..found.range.end {
            hits[found.file_id as usize][b as usize] += 1;
        }
    }
    assert!(hits.iter().all(|file| file.iter().all(|&h| h == 1)));
}

#[test]
fn row_ids_count_up_from_zero() {
    assert_eq!(row_ids(0), Some(Vec::new()));
    assert_eq!(row_ids(5), Some(vec![0, 1, 2, 3, 4]));
}

#[test]
fn reads_follow_the_given_order() {
    let layout = TableLayout::new(10, 1000, 8).unwrap();
    let order = vec![257, 0, 999, 100];
    assert_eq!(
        layout.reads_for(&order, 3),
        Ok(vec![read(257, 2, 456, 464), read(0, 0, 0, 8), read(999, 9, 792, 800)])
    );
    assert_eq!(layout.reads_for(&order, 0), Ok(Vec::new()));
    assert_eq!(layout.reads_for(&order, 4).unwrap().len(), 4);
}

#[test]
fn more_takes_than_rows_are_refused() {
    let layout = TableLayout::new(10, 1000, 8).unwrap();
    let order = vec![1, 2, 3];
    assert_eq!(layout.reads_for(&order, 4), Err(AccessError::TooManyTakes));
    let small = TableLayout::new(1, 3, 8).unwrap();
    assert_eq!(small.plan_iteration(4), Err(AccessError::TooManyTakes));
}

#[test]
fn first_row_without_a_place_gives_the_error() {
    let layout = TableLayout::new(3, 10, 8).unwrap();
    let order = vec![1, 9, 2, 10];
    assert_eq!(layout.reads_for(&order, 1).unwrap().len(), 1);
    assert_eq!(
        layout.reads_for(&order, 2),
        Err(AccessError::FileIndexOutOfRange { row: 9, file_id: 3 })
    );
    assert_eq!(
        layout.reads_for(&order, 4),
        Err(AccessError::FileIndexOutOfRange { row: 9, file_id: 3 })
    );
}

#[test]
fn iteration_reads_distinct_rows_of_the_table() {
    let layout = TableLayout::new(10, 1000, 8).unwrap();
    let reads = layout.plan_iteration(100).unwrap();
    assert_eq!(reads.len(), 100);
    let mut seen = vec![false; 1000];
    for r in &reads {
        assert!(r.row < 1000);
        assert!(!seen[r.row as usize]);
        seen[r.row as usize] = true;
        assert_eq!(layout.locate(r.row), Ok(*r));
        assert!(r.file_id < 10);
    }
}

#[test]
fn full_iteration_reads_every_row_once() {
    let layout = TableLayout::new(4, 64, 16).unwrap();
    let reads = layout.plan_iteration(64).unwrap();
    let mut rows: Vec<u64> = reads.iter().map(|r| r.row).collect();
    rows.sort();
    assert_eq!(rows, (0..64).collect::<Vec<u64>>());
}

#[test]
fn iteration_order_is_shuffled() {
    let layout = TableLayout::new(10, 1000, 8).unwrap();
    let reads = layout.plan_iteration(100).unwrap();
    let rows: Vec<u64> = reads.iter().map(|r| r.row).collect();
    assert_ne!(rows, (0..100).collect::<Vec<u64>>());
    let again: Vec<u64> = layout.plan_iteration(100).unwrap().iter().map(|r| r.row).collect();
    assert_ne!(rows, again);
}

#[test]
fn iteration_over_an_uneven_table_may_hit_a_row_without_a_place() {
    let layout = TableLayout::new(3, 10, 8).unwrap();
    match layout.plan_iteration(10) {
        Err(AccessError::FileIndexOutOfRange { row, file_id }) => {
            assert_eq!(row, 9);
            assert_eq!(file_id, 3);
        }
        other => panic!("row 9 has no file, got {:?}", other),
    }
}
