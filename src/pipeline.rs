//! The decisions of one worker of the parallel pipeline: it claims a file,
//! scans it, records the outcome, and flushes once the queue is drained.
use vstd::prelude::*;

verus! {

#[derive(Clone, Copy, Debug, PartialEq, Eq, Structural)]
pub enum WorkerPhase {
    /// Waiting to claim a file from the queue.
    Idle,
    /// Scanning the claimed file and appending its events.
    Scanning,
    /// The queue was drained and the sink handle flushed.
    Finished,
}

#[derive(Clone, Copy, Debug, PartialEq, Eq, Structural)]
pub enum WorkerEvent {
    /// The queue handed this worker a file.
    Claimed,
    /// The queue is closed and empty.
    QueueDrained,
    /// The claimed file was scanned and appended.
    FileDone,
    /// Opening, reading or appending the claimed file failed.
    FileFailed,
}

#[derive(Clone, Copy, Debug, PartialEq, Eq, Structural)]
pub enum WorkerAction {
    /// Scan the file just claimed.
    ScanFile,
    /// Add the file's statistics to the shared totals, then claim the next file.
    RecordAndClaim,
    /// Report the failure with the worker and the file, then claim the next file.
    ReportAndClaim,
    /// Flush the sink handle once and stop.
    FlushAndExit,
    /// The event does not belong to this phase: change nothing.
    Ignore,
}

/// The phase that follows `phase` on `event`, with what the worker must do.
pub open spec fn transition(phase: WorkerPhase, event: WorkerEvent) -> (WorkerPhase, WorkerAction) {
    match (phase, event) {
        (WorkerPhase::Idle, WorkerEvent::Claimed) => (WorkerPhase::Scanning, WorkerAction::ScanFile),
        (WorkerPhase::Idle, WorkerEvent::QueueDrained) => (
            WorkerPhase::Finished,
            WorkerAction::FlushAndExit,
        ),
        (WorkerPhase::Scanning, WorkerEvent::FileDone) => (
            WorkerPhase::Idle,
            WorkerAction::RecordAndClaim,
        ),
        (WorkerPhase::Scanning, WorkerEvent::FileFailed) => (
            WorkerPhase::Idle,
            WorkerAction::ReportAndClaim,
        ),
        _ => (phase, WorkerAction::Ignore),
    }
}

/// One worker: its phase and how many files it has finished and failed.
pub struct Worker {
    pub phase: WorkerPhase,
    pub files_done: usize,
    pub files_failed: usize,
}

impl Worker {
    /// A worker that has not claimed anything yet.
    pub fn new() -> (r: Worker)
        ensures
            r.phase == WorkerPhase::Idle,
            r.files_done == 0,
            r.files_failed == 0,
    {
        Worker { phase: WorkerPhase::Idle, files_done: 0, files_failed: 0 }
    }

    /// Whether the worker has flushed and stopped.
    pub fn is_finished(&self) -> (b: bool)
        ensures
            b == (self.phase == WorkerPhase::Finished),
    {
        match self.phase {
            WorkerPhase::Finished => true,
            _ => false,
        }
    }

    /// Moves the worker on by one event and says what it must do. A failed
    /// file is counted and does not stop the worker; only a drained queue does.
    pub fn step(&mut self, event: WorkerEvent) -> (action: WorkerAction)
        requires
            old(self).files_done < usize::MAX,
            old(self).files_failed < usize::MAX,
        ensures
            (final(self).phase, action) == transition(old(self).phase, event),
            final(self).files_done == old(self).files_done + if action
                == WorkerAction::RecordAndClaim {
                1int
            } else {
                0int
            },
            final(self).files_failed == old(self).files_failed + if action
                == WorkerAction::ReportAndClaim {
                1int
            } else {
                0int
            },
    {
        match (self.phase, event) {
            (WorkerPhase::Idle, WorkerEvent::Claimed) => {
                self.phase = WorkerPhase::Scanning;
                WorkerAction::ScanFile
            },
            (WorkerPhase::Idle, WorkerEvent::QueueDrained) => {
                self.phase = WorkerPhase::Finished;
                WorkerAction::FlushAndExit
            },
            (WorkerPhase::Scanning, WorkerEvent::FileDone) => {
                self.phase = WorkerPhase::Idle;
                self.files_done = self.files_done + 1;
                WorkerAction::RecordAndClaim
            },
            (WorkerPhase::Scanning, WorkerEvent::FileFailed) => {
                self.phase = WorkerPhase::Idle;
                self.files_failed = self.files_failed + 1;
                WorkerAction::ReportAndClaim
            },
            _ => WorkerAction::Ignore,
        }
    }
}

/// Once finished, a worker stays finished whatever comes.
pub proof fn lemma_finished_stays(event: WorkerEvent)
    ensures
        transition(WorkerPhase::Finished, event) == (WorkerPhase::Finished, WorkerAction::Ignore),
{
}

} // verus!
