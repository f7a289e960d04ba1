//! The single in-flight build job and its cancellation.
//!
//! Exactly one job may be active at a time: the generated configuration
//! header is one shared file, so a second concurrent run is refused at
//! creation. Cancellation is a flag plus the id of the tracked external
//! process; requesting it is idempotent and hands the caller the
//! process to terminate, if one is live.

use vstd::prelude::*;

use crate::models::BuildConfig;

verus! {

/// The record of the one build that may be in flight: its
/// configuration, the cancellation mark, and the id of the live
/// external process while one runs.
#[derive(Debug)]
pub struct JobContext {
    pub config: Option<BuildConfig>,
    pub cancelled: bool,
    pub child_pid: Option<u64>,
}

impl JobContext {
    /// No job active.
    pub fn new() -> (r: JobContext)
        ensures
            r.config is None,
            !r.cancelled,
            r.child_pid is None,
    {
        JobContext { config: None, cancelled: false, child_pid: None }
    }

    /// Claims the single job slot for a new build. Succeeds exactly
    /// when no job is active; a concurrent second build is refused and
    /// the state is left untouched.
    pub fn begin(&mut self, config: BuildConfig) -> (r: bool)
        ensures
            r == (old(self).config is None),
            r ==> final(self).config is Some && !final(self).cancelled && final(self).child_pid
                is None,
            !r ==> *final(self) == *old(self),
    {
        match self.config {
            Some(_) => false,
            None => {
                self.config = Some(config);
                self.cancelled = false;
                self.child_pid = None;
                true
            },
        }
    }

    /// Records the external process spawned for the current
    /// combination.
    pub fn attach_child(&mut self, pid: u64)
        ensures
            final(self).child_pid == Some(pid),
            final(self).config == old(self).config,
            final(self).cancelled == old(self).cancelled,
    {
        self.child_pid = Some(pid);
    }

    /// Releases the process handle once the process exited or was
    /// confirmed killed.
    pub fn release_child(&mut self)
        ensures
            final(self).child_pid is None,
            final(self).config == old(self).config,
            final(self).cancelled == old(self).cancelled,
    {
        self.child_pid = None;
    }

    /// Marks the job cancelled, idempotently, and returns the id of
    /// the tracked process so the caller can terminate its tree; the
    /// rest of the state is untouched, so a second request changes
    /// nothing further.
    pub fn request_cancel(&mut self) -> (r: Option<u64>)
        ensures
            *final(self) == cancelled_job(*old(self)),
            r == old(self).child_pid,
    {
        self.cancelled = true;
        self.child_pid
    }

    /// Whether cancellation has been requested.
    pub fn is_cancelled(&self) -> (r: bool)
        ensures
            r == self.cancelled,
    {
        self.cancelled
    }

    /// Clears the slot when the build finishes, fails or is cancelled.
    pub fn finish(&mut self)
        ensures
            final(self).config is None,
            final(self).child_pid is None,
            !final(self).cancelled,
    {
        self.config = None;
        self.child_pid = None;
        self.cancelled = false;
    }
}

/// What a cancellation request does to the job: it sets the mark and
/// moves nothing else.
pub open spec fn cancelled_job(j: JobContext) -> JobContext {
    JobContext { cancelled: true, ..j }
}

/// Law: requesting cancellation is idempotent — a second request leaves
/// the job exactly where the first one left it.
pub proof fn lemma_cancel_idempotent(j: JobContext)
    ensures
        cancelled_job(cancelled_job(j)) == cancelled_job(j),
{
}

} // verus!