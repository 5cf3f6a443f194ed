//! The course of one benchmark run.
//!
//! A run goes from `NotStarted` through an upload, unless it is skipped, and
//! through its read passes, one after the other, to `Done`. The caller does
//! the work of each phase and asks for the next one; what follows a
//! completion attempt is decided here as well.

use vstd::prelude::*;

verus! {

/// Seconds to wait before a failed completion is tried again.
pub const COMPLETION_BACKOFF_SECS: u64 = 1;

/// Where a run stands.
#[derive(Clone, Copy, Debug, PartialEq, Eq, Structural)]
pub enum Phase {
    /// Nothing has been done yet.
    NotStarted,
    /// The object is being uploaded.
    Uploading,
    /// The read pass with index `pass` is running.
    Reading { pass: u32 },
    /// The run is over.
    Done,
}

/// What to do when the completion of a multipart upload fails.
#[derive(Clone, Copy, Debug, PartialEq, Eq, Structural)]
pub enum CompletionPolicy {
    /// Complete once; a failure ends the run.
    Once,
    /// Try again after `backoff_secs` seconds, as often as it takes.
    RetryForever { backoff_secs: u64 },
}

/// What follows an attempt to complete a multipart upload.
#[derive(Clone, Copy, Debug, PartialEq, Eq, Structural)]
pub enum AfterCompletion {
    /// The upload is complete.
    Finished,
    /// The run ends with the failure.
    Abort,
    /// Wait `secs` seconds, then attempt the completion again.
    RetryAfter { secs: u64 },
}

/// The phase in which reading starts: the first pass, or `Done` where no
/// pass is asked for.
pub open spec fn first_read(num_iterations: u32) -> Phase {
    if num_iterations == 0 {
        Phase::Done
    } else {
        Phase::Reading { pass: 0 }
    }
}

/// The phase that follows `phase` in a run with `num_iterations` read
/// passes.
pub open spec fn phase_after(phase: Phase, skip_upload: bool, num_iterations: u32) -> Phase {
    match phase {
        Phase::NotStarted => if skip_upload {
            first_read(num_iterations)
        } else {
            Phase::Uploading
        },
        Phase::Uploading => first_read(num_iterations),
        Phase::Reading { pass } => if pass + 1 < num_iterations {
            Phase::Reading { pass: (pass + 1) as u32 }
        } else {
            Phase::Done
        },
        Phase::Done => Phase::Done,
    }
}

/// The phase that a run has reached after `steps` phases have ended.
pub open spec fn phase_at(steps: nat, skip_upload: bool, num_iterations: u32) -> Phase
    decreases steps,
{
    if steps == 0 {
        Phase::NotStarted
    } else {
        phase_after(
            phase_at((steps - 1) as nat, skip_upload, num_iterations),
            skip_upload,
            num_iterations,
        )
    }
}

/// What follows a completion attempt under `policy`.
pub open spec fn completion_outcome(policy: CompletionPolicy, succeeded: bool) -> AfterCompletion {
    if succeeded {
        AfterCompletion::Finished
    } else {
        match policy {
            CompletionPolicy::Once => AfterCompletion::Abort,
            CompletionPolicy::RetryForever { backoff_secs } => AfterCompletion::RetryAfter {
                secs: backoff_secs,
            },
        }
    }
}

/// The phase that follows `phase`.
pub fn next_phase(phase: Phase, skip_upload: bool, num_iterations: u32) -> (next: Phase)
    ensures
        next == phase_after(phase, skip_upload, num_iterations),
{
    match phase {
        Phase::NotStarted => {
            if skip_upload {
                start_reading(num_iterations)
            } else {
                Phase::Uploading
            }
        },
        Phase::Uploading => start_reading(num_iterations),
        Phase::Reading { pass } => {
            if pass < num_iterations && pass + 1 < num_iterations {
                Phase::Reading { pass: pass + 1 }
            } else {
                Phase::Done
            }
        },
        Phase::Done => Phase::Done,
    }
}

/// The phase in which reading starts.
fn start_reading(num_iterations: u32) -> (phase: Phase)
    ensures
        phase == first_read(num_iterations),
{
    if num_iterations == 0 {
        Phase::Done
    } else {
        Phase::Reading { pass: 0 }
    }
}

/// Decides what follows an attempt to complete a multipart upload: a
/// success finishes it, a failure ends the run or is retried after the
/// backoff, as the policy says.
pub fn after_completion(policy: CompletionPolicy, succeeded: bool) -> (next: AfterCompletion)
    ensures
        next == completion_outcome(policy, succeeded),
{
    if succeeded {
        AfterCompletion::Finished
    } else {
        match policy {
            CompletionPolicy::Once => AfterCompletion::Abort,
            CompletionPolicy::RetryForever { backoff_secs } => AfterCompletion::RetryAfter {
                secs: backoff_secs,
            },
        }
    }
}

/// The policy that retries a failed completion after the fixed backoff.
pub fn retry_with_fixed_backoff() -> (policy: CompletionPolicy)
    ensures
        policy == (CompletionPolicy::RetryForever { backoff_secs: COMPLETION_BACKOFF_SECS }),
{
    CompletionPolicy::RetryForever { backoff_secs: COMPLETION_BACKOFF_SECS }
}

/// A run uploads at most once, before any reading, then makes its read
/// passes in order, each exactly once, and is done after the last: with
/// `lead` phases before the first pass (one for `NotStarted`, one more for
/// the upload unless it is skipped), pass `k` is the phase after `lead + k`
/// steps, and the run is done after `lead + num_iterations` steps and stays
/// so.
pub proof fn lemma_run_course(skip_upload: bool, num_iterations: u32, k: nat)
    ensures
        phase_at(0, skip_upload, num_iterations) == Phase::NotStarted,
        !skip_upload ==> phase_at(1, skip_upload, num_iterations) == Phase::Uploading,
        k < num_iterations ==> phase_at(lead_steps(skip_upload) + k, skip_upload, num_iterations)
            == (Phase::Reading { pass: k as u32 }),
        k >= num_iterations ==> phase_at(lead_steps(skip_upload) + k, skip_upload, num_iterations)
            == Phase::Done,
    decreases k,
{
    reveal_with_fuel(phase_at, 3);
    if k > 0 {
        lemma_run_course(skip_upload, num_iterations, (k - 1) as nat);
        assert(phase_at(lead_steps(skip_upload) + k, skip_upload, num_iterations) == phase_after(
            phase_at((lead_steps(skip_upload) + k - 1) as nat, skip_upload, num_iterations),
            skip_upload,
            num_iterations,
        ));
    }
}

/// Number of steps before the first read pass: one from `NotStarted`, and
/// one for the upload unless it is skipped.
pub open spec fn lead_steps(skip_upload: bool) -> nat {
    if skip_upload {
        1
    } else {
        2
    }
}

} // verus!
