//! The cut of a columnar file into batches of row groups, one per stream,
//! and the columns that a scan projects.

use vstd::prelude::*;
use crate::range::{covers_exactly_once, is_split, split_ranges, ByteRange};

verus! {

/// Number of row groups of the scanned file.
pub const ROW_GROUPS: u64 = 1200;

/// Number of row groups that one stream reads.
pub const ROW_GROUPS_PER_STREAM: u64 = 150;

/// Number of streams that are open at once.
pub const CONCURRENT_STREAMS: usize = 8;

/// Number of columns that the scan projects.
pub const PROJECTED_COLUMNS: usize = 10;

/// Cuts the row groups of the file into consecutive batches of
/// `ROW_GROUPS_PER_STREAM` groups, one batch for each stream. A batch is
/// given as the half-open range of its group indices.
pub fn row_group_batches() -> (batches: Vec<ByteRange>)
    ensures
        is_split(batches@, ROW_GROUPS as int, ROW_GROUPS_PER_STREAM as int),
        covers_exactly_once(batches@, ROW_GROUPS as int),
        batches@.len() == 8,
{
    split_ranges(ROW_GROUPS, ROW_GROUPS_PER_STREAM)
}

/// The indices of the projected columns: every second column from the
/// first, `PROJECTED_COLUMNS` of them.
pub fn projected_columns() -> (columns: Vec<usize>)
    ensures
        columns@.len() == PROJECTED_COLUMNS,
        forall|i: int| 0 <= i < PROJECTED_COLUMNS ==> #[trigger] columns@[i] == 2 * i,
{
    let mut columns: Vec<usize> = Vec::new();
    let mut i: usize = 0;
    while i < PROJECTED_COLUMNS
        invariant
            i <= PROJECTED_COLUMNS,
            columns@.len() == i,
            forall|k: int| 0 <= k < i ==> #[trigger] columns@[k] == 2 * k,
        decreases PROJECTED_COLUMNS - i,
    {
        columns.push(2 * i);
        i = i + 1;
    }
    columns
}

} // verus!
