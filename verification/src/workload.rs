//! Workload descriptors: the sizes, the concurrency and the number of
//! iterations of a run, with the values that hold where none is given.

use vstd::prelude::*;
use crate::random_access::{AccessError, TableLayout};
use crate::upload::{PartSchedule, PART_SIZE_INCREMENT};

verus! {

/// Size of the object of a scan, unless given: 1 GiB.
pub const DEFAULT_SCAN_TOTAL_SIZE: u64 = 1024 * 1024 * 1024;

/// Size of an upload part of a scan, unless given: 8 MiB.
pub const DEFAULT_UPLOAD_SIZE: u64 = 8 * 1024 * 1024;

/// Size of a read range of a scan, unless given: 32 MiB.
pub const DEFAULT_DOWNLOAD_SIZE: u64 = 32 * 1024 * 1024;

/// Number of clients of a scan, unless given.
pub const DEFAULT_NUM_CLIENTS: u32 = 8;

/// Number of requests that one client of a scan has in flight, unless given.
pub const DEFAULT_THREADS_PER_CLIENT: u32 = 8;

/// Number of read passes, unless given.
pub const DEFAULT_NUM_ITERATIONS: u32 = 5;

/// Size of the object of a growing upload, unless given: 2 TiB.
pub const DEFAULT_UPLOAD_TOTAL_SIZE: u64 = 2 * 1024 * 1024 * 1024 * 1024;

/// Number of parts of a growing upload in flight, unless given.
pub const DEFAULT_MAX_PARALLELISM: u64 = 32;

/// Number of files of a table, unless given.
pub const DEFAULT_NUM_FILES: u64 = 10;

/// Number of rows of a table, unless given.
pub const DEFAULT_NUM_ROWS: u64 = 1000000;

/// Number of bytes of a row, unless given.
pub const DEFAULT_BYTES_PER_ROW: u64 = 8;

/// Number of point reads in flight, unless given.
pub const DEFAULT_MAX_CONCURRENT_READS: u64 = 10000;

/// Number of point reads of one iteration, unless given.
pub const DEFAULT_TAKES_PER_ITER: u32 = 10000;

/// A sequential scan: an object is uploaded in parts of one size, unless
/// that is skipped, and then read in ranges of one size by a pool of
/// clients, several times over.
#[derive(Clone, Copy, Debug, PartialEq, Eq, Structural)]
pub struct ScanWorkload {
    pub total_size: u64,
    pub upload_size: u64,
    pub download_size: u64,
    pub num_clients: u32,
    pub threads_per_client: u32,
    pub num_iterations: u32,
    pub skip_upload: bool,
}

/// An upload with growing parts, several of them in flight at once.
#[derive(Clone, Copy, Debug, PartialEq, Eq, Structural)]
pub struct UploadWorkload {
    pub total_size: u64,
    pub initial_part_size: u64,
    pub max_parallelism: u64,
}

/// Random point reads over a table in files.
#[derive(Clone, Copy, Debug, PartialEq, Eq, Structural)]
pub struct RandomAccessWorkload {
    pub num_files: u64,
    pub num_rows: u64,
    pub bytes_per_row: u64,
    pub max_concurrent_reads: u64,
    pub num_iterations: u32,
    pub takes_per_iter: u32,
    pub skip_upload: bool,
}

impl ScanWorkload {
    /// The scan that the given values describe; a value that is not given
    /// has its default.
    pub fn from_options(
        total_size: Option<u64>,
        upload_size: Option<u64>,
        download_size: Option<u64>,
        num_clients: Option<u32>,
        threads_per_client: Option<u32>,
        num_iterations: Option<u32>,
        skip_upload: bool,
    ) -> (workload: ScanWorkload)
        ensures
            workload == (ScanWorkload {
                total_size: total_size.unwrap_or(DEFAULT_SCAN_TOTAL_SIZE),
                upload_size: upload_size.unwrap_or(DEFAULT_UPLOAD_SIZE),
                download_size: download_size.unwrap_or(DEFAULT_DOWNLOAD_SIZE),
                num_clients: num_clients.unwrap_or(DEFAULT_NUM_CLIENTS),
                threads_per_client: threads_per_client.unwrap_or(DEFAULT_THREADS_PER_CLIENT),
                num_iterations: num_iterations.unwrap_or(DEFAULT_NUM_ITERATIONS),
                skip_upload,
            }),
    {
        ScanWorkload {
            total_size: total_size.unwrap_or(DEFAULT_SCAN_TOTAL_SIZE),
            upload_size: upload_size.unwrap_or(DEFAULT_UPLOAD_SIZE),
            download_size: download_size.unwrap_or(DEFAULT_DOWNLOAD_SIZE),
            num_clients: num_clients.unwrap_or(DEFAULT_NUM_CLIENTS),
            threads_per_client: threads_per_client.unwrap_or(DEFAULT_THREADS_PER_CLIENT),
            num_iterations: num_iterations.unwrap_or(DEFAULT_NUM_ITERATIONS),
            skip_upload,
        }
    }

    /// The parts and the ranges of the scan have at least one byte, so that
    /// they get through the object.
    pub open spec fn valid(self) -> bool {
        &&& self.upload_size > 0
        &&& self.download_size > 0
    }

    /// Whether the parts and the ranges of the scan have at least one byte.
    pub fn is_valid(&self) -> (valid: bool)
        ensures
            valid == self.valid(),
    {
        self.upload_size > 0 && self.download_size > 0
    }

    /// The schedule of the upload: parts of `upload_size` bytes.
    pub fn schedule(&self) -> (schedule: PartSchedule)
        ensures
            schedule == (PartSchedule::Fixed { part_size: self.upload_size }),
            schedule.valid() <==> self.upload_size > 0,
    {
        PartSchedule::Fixed { part_size: self.upload_size }
    }

    /// The most requests that are in flight at once: every client with all
    /// its slots taken.
    pub fn max_in_flight(&self) -> (n: u64)
        ensures
            n == self.num_clients * self.threads_per_client,
    {
        assert(self.num_clients * self.threads_per_client <= u64::MAX) by (nonlinear_arith)
            requires
                self.num_clients <= u32::MAX,
                self.threads_per_client <= u32::MAX,
        ;
        (self.num_clients as u64) * (self.threads_per_client as u64)
    }
}

impl UploadWorkload {
    /// The upload that the given values describe; a value that is not given
    /// has its default.
    pub fn from_options(
        total_size: Option<u64>,
        initial_part_size: Option<u64>,
        max_parallelism: Option<u64>,
    ) -> (workload: UploadWorkload)
        ensures
            workload == (UploadWorkload {
                total_size: total_size.unwrap_or(DEFAULT_UPLOAD_TOTAL_SIZE),
                initial_part_size: initial_part_size.unwrap_or(PART_SIZE_INCREMENT),
                max_parallelism: max_parallelism.unwrap_or(DEFAULT_MAX_PARALLELISM),
            }),
    {
        UploadWorkload {
            total_size: total_size.unwrap_or(DEFAULT_UPLOAD_TOTAL_SIZE),
            initial_part_size: initial_part_size.unwrap_or(PART_SIZE_INCREMENT),
            max_parallelism: max_parallelism.unwrap_or(DEFAULT_MAX_PARALLELISM),
        }
    }

    /// The schedule of the upload: parts that grow from `initial_part_size`.
    pub fn schedule(&self) -> (schedule: PartSchedule)
        ensures
            schedule == (PartSchedule::Growing { initial_part_size: self.initial_part_size }),
    {
        PartSchedule::Growing { initial_part_size: self.initial_part_size }
    }
}

impl RandomAccessWorkload {
    /// The random-access run that the given values describe; a value that
    /// is not given has its default.
    pub fn from_options(
        num_files: Option<u64>,
        num_rows: Option<u64>,
        bytes_per_row: Option<u64>,
        max_concurrent_reads: Option<u64>,
        num_iterations: Option<u32>,
        takes_per_iter: Option<u32>,
        skip_upload: bool,
    ) -> (workload: RandomAccessWorkload)
        ensures
            workload == (RandomAccessWorkload {
                num_files: num_files.unwrap_or(DEFAULT_NUM_FILES),
                num_rows: num_rows.unwrap_or(DEFAULT_NUM_ROWS),
                bytes_per_row: bytes_per_row.unwrap_or(DEFAULT_BYTES_PER_ROW),
                max_concurrent_reads: max_concurrent_reads.unwrap_or(DEFAULT_MAX_CONCURRENT_READS),
                num_iterations: num_iterations.unwrap_or(DEFAULT_NUM_ITERATIONS),
                takes_per_iter: takes_per_iter.unwrap_or(DEFAULT_TAKES_PER_ITER),
                skip_upload,
            }),
    {
        RandomAccessWorkload {
            num_files: num_files.unwrap_or(DEFAULT_NUM_FILES),
            num_rows: num_rows.unwrap_or(DEFAULT_NUM_ROWS),
            bytes_per_row: bytes_per_row.unwrap_or(DEFAULT_BYTES_PER_ROW),
            max_concurrent_reads: max_concurrent_reads.unwrap_or(DEFAULT_MAX_CONCURRENT_READS),
            num_iterations: num_iterations.unwrap_or(DEFAULT_NUM_ITERATIONS),
            takes_per_iter: takes_per_iter.unwrap_or(DEFAULT_TAKES_PER_ITER),
            skip_upload,
        }
    }

    /// The layout of the table over its files.
    pub fn layout(&self) -> (layout: Result<TableLayout, AccessError>)
        ensures
            layout == Err::<TableLayout, AccessError>(AccessError::NoFiles) <==> self.num_files
                == 0,
            layout == Err::<TableLayout, AccessError>(AccessError::FileTooLarge) <==> (
            self.num_files > 0 && (self.num_rows / self.num_files) * self.bytes_per_row
                > u64::MAX),
            layout is Ok <==> (self.num_files > 0 && (self.num_rows / self.num_files)
                * self.bytes_per_row <= u64::MAX),
            layout matches Ok(l) ==> l.files() == self.num_files && l.rows() == self.num_rows
                && l.row_bytes() == self.bytes_per_row && l.valid(),
    {
        TableLayout::new(self.num_files, self.num_rows, self.bytes_per_row)
    }
}

} // verus!
