use store_bench::driver::{
    after_completion, next_phase, retry_with_fixed_backoff, AfterCompletion, CompletionPolicy,
    Phase, COMPLETION_BACKOFF_SECS,
};
use store_bench::random_access::AccessError;
use store_bench::row_groups::{
    projected_columns, row_group_batches, CONCURRENT_STREAMS, PROJECTED_COLUMNS, ROW_GROUPS,
    ROW_GROUPS_PER_STREAM,
};
use store_bench::upload::PartSchedule;
use store_bench::workload::{RandomAccessWorkload, ScanWorkload, UploadWorkload};

fn course(skip_upload: bool, num_iterations: u32) -> Vec<Phase> {
    let mut phases = vec![Phase::NotStarted];
    let mut phase = Phase::NotStarted;
    while phase != Phase::Done {
        phase = next_phase(phase, skip_upload, num_iterations);
        phases.push(phase);
    }
    phases
}

#[test]
fn run_uploads_then_reads_each_pass_once() {
    assert_eq!(
        course(false, 3),
        vec![
            Phase::NotStarted,
            Phase::Uploading,
            Phase::Reading { pass: 0 },
            Phase::Reading { pass: 1 },
            Phase::Reading { pass: 2 },
            Phase::Done,
        ]
    );
}

#[test]
fn run_that_skips_the_upload_starts_reading() {
    assert_eq!(
        course(true, 2),
        vec![
            Phase::NotStarted,
            Phase::Reading { pass: 0 },
            Phase::Reading { pass: 1 },
            Phase::Done,
        ]
    );
}

#[test]
fn run_without_read_passes() {
    assert_eq!(course(false, 0), vec![Phase::NotStarted, Phase::Uploading, Phase::Done]);
    assert_eq!(course(true, 0), vec![Phase::NotStarted, Phase::Done]);
}

#[test]
fn done_stays_done() {
    assert_eq!(next_phase(Phase::Done, false, 5), Phase::Done);
    assert_eq!(next_phase(Phase::Reading { pass: 4 }, false, 5), Phase::Done);
    assert_eq!(next_phase(Phase::Reading { pass: 9 }, false, 5), Phase::Done);
    assert_eq!(
        next_phase(Phase::Reading { pass: u32::MAX }, false, u32::MAX),
        Phase::Done
    );
    assert_eq!(course(true, 5).len(), 7);
}

#[test]
fn completed_upload_is_finished() {
    assert_eq!(after_completion(CompletionPolicy::Once, true), AfterCompletion::Finished);
    assert_eq!(after_completion(retry_with_fixed_backoff(), true), AfterCompletion::Finished);
}

#[test]
fn failed_completion_ends_the_run_or_is_retried() {
    assert_eq!(after_completion(CompletionPolicy::Once, false), AfterCompletion::Abort);
    assert_eq!(
        after_completion(retry_with_fixed_backoff(), false),
        AfterCompletion::RetryAfter { secs: 1 }
    );
    assert_eq!(
        after_completion(CompletionPolicy::RetryForever { backoff_secs: 30 }, false),
        AfterCompletion::RetryAfter { secs: 30 }
    );
    assert_eq!(COMPLETION_BACKOFF_SECS, 1);
}

#[test]
fn scan_defaults() {
    let w = ScanWorkload::from_options(None, None, None, None, None, None, false);
    assert_eq!(
        w,
        ScanWorkload {
            total_size: 1024 * 1024 * 1024,
            upload_size: 8 * 1024 * 1024,
            download_size: 32 * 1024 * 1024,
            num_clients: 8,
            threads_per_client: 8,
            num_iterations: 5,
            skip_upload: false,
        }
    );
    assert_eq!(w.schedule(), PartSchedule::Fixed { part_size: 8 * 1024 * 1024 });
    assert_eq!(w.max_in_flight(), 64);
    assert!(w.is_valid());
}

#[test]
fn scan_takes_what_is_given() {
    let w = ScanWorkload::from_options(Some(1), Some(2), Some(3), Some(4), Some(5), Some(6), true);
    assert_eq!(
        w,
        ScanWorkload {
            total_size: 1,
            upload_size: 2,
            download_size: 3,
            num_clients: 4,
            threads_per_client: 5,
            num_iterations: 6,
            skip_upload: true,
        }
    );
    assert_eq!(w.max_in_flight(), 20);
    assert!(w.is_valid());
    assert!(!ScanWorkload { upload_size: 0, ..w }.is_valid());
    assert!(!ScanWorkload { download_size: 0, ..w }.is_valid());
    let wide =
        ScanWorkload::from_options(None, None, None, Some(u32::MAX), Some(u32::MAX), None, true);
    assert_eq!(wide.max_in_flight(), (u32::MAX as u64) * (u32::MAX as u64));
}

#[test]
fn upload_defaults() {
    let w = UploadWorkload::from_options(None, None, None);
    assert_eq!(
        w,
        UploadWorkload {
            total_size: 2 * 1024 * 1024 * 1024 * 1024,
            initial_part_size: 5 * 1024 * 1024,
            max_parallelism: 32,
        }
    );
    assert_eq!(w.schedule(), PartSchedule::Growing { initial_part_size: 5 * 1024 * 1024 });
    let given = UploadWorkload::from_options(Some(9), Some(8), Some(7));
    assert_eq!(
        given,
        UploadWorkload { total_size: 9, initial_part_size: 8, max_parallelism: 7 }
    );
}

#[test]
fn random_access_defaults() {
    let w = RandomAccessWorkload::from_options(None, None, None, None, None, None, false);
    assert_eq!(
        w,
        RandomAccessWorkload {
            num_files: 10,
            num_rows: 1000000,
            bytes_per_row: 8,
            max_concurrent_reads: 10000,
            num_iterations: 5,
            takes_per_iter: 10000,
            skip_upload: false,
        }
    );
    let layout = w.layout().unwrap();
    assert_eq!(layout.rows_per_file(), 100000);
    assert_eq!(layout.file_size(), 800000);
    assert_eq!(layout.plan_iteration(w.takes_per_iter).unwrap().len(), 10000);
}

#[test]
fn random_access_takes_what_is_given() {
    let w = RandomAccessWorkload::from_options(
        Some(0),
        Some(2),
        Some(3),
        Some(4),
        Some(5),
        Some(6),
        true,
    );
    assert_eq!(
        w,
        RandomAccessWorkload {
            num_files: 0,
            num_rows: 2,
            bytes_per_row: 3,
            max_concurrent_reads: 4,
            num_iterations: 5,
            takes_per_iter: 6,
            skip_upload: true,
        }
    );
    assert_eq!(w.layout(), Err(AccessError::NoFiles));
}

#[test]
fn row_groups_are_cut_into_eight_batches() {
    let batches = row_group_batches();
    assert_eq!(batches.len(), 8);
    assert_eq!(ROW_GROUPS, 1200);
    assert_eq!(ROW_GROUPS_PER_STREAM, 150);
    assert_eq!(batches.len(), CONCURRENT_STREAMS);
    for (i, b) in batches.iter().enumerate() {
        assert_eq!(b.start, i as u64 * 150);
        assert_eq!(b.end, (i as u64 + 1) * 150);
    }
}

#[test]
fn every_second_column_is_projected() {
    assert_eq!(projected_columns(), vec![0, 2, 4, 6, 8, 10, 12, 14, 16, 18]);
    assert_eq!(projected_columns().len(), PROJECTED_COLUMNS);
}
