use strace_to_duckdb::pipeline::{Worker, WorkerAction, WorkerEvent, WorkerPhase};

#[test]
fn worker_claims_scans_and_finishes() {
    let mut w = Worker::new();
    assert_eq!(w.phase, WorkerPhase::Idle);
    assert_eq!(w.step(WorkerEvent::Claimed), WorkerAction::ScanFile);
    assert_eq!(w.phase, WorkerPhase::Scanning);
    assert_eq!(w.step(WorkerEvent::FileDone), WorkerAction::RecordAndClaim);
    assert_eq!(w.step(WorkerEvent::Claimed), WorkerAction::ScanFile);
    assert_eq!(w.step(WorkerEvent::FileFailed), WorkerAction::ReportAndClaim);
    assert_eq!(w.phase, WorkerPhase::Idle);
    assert_eq!(w.files_done, 1);
    assert_eq!(w.files_failed, 1);
    assert!(!w.is_finished());
    assert_eq!(w.step(WorkerEvent::QueueDrained), WorkerAction::FlushAndExit);
    assert!(w.is_finished());
}

#[test]
fn finished_worker_ignores_everything() {
    let mut w = Worker::new();
    w.step(WorkerEvent::QueueDrained);
    for e in [
        WorkerEvent::Claimed,
        WorkerEvent::QueueDrained,
        WorkerEvent::FileDone,
        WorkerEvent::FileFailed,
    ] {
        assert_eq!(w.step(e), WorkerAction::Ignore);
        assert_eq!(w.phase, WorkerPhase::Finished);
    }
    assert_eq!(w.files_done, 0);
}

#[test]
fn out_of_phase_events_change_nothing() {
    let mut w = Worker::new();
    assert_eq!(w.step(WorkerEvent::FileDone), WorkerAction::Ignore);
    assert_eq!(w.step(WorkerEvent::FileFailed), WorkerAction::Ignore);
    assert_eq!(w.phase, WorkerPhase::Idle);
    w.step(WorkerEvent::Claimed);
    assert_eq!(w.step(WorkerEvent::Claimed), WorkerAction::Ignore);
    assert_eq!(w.step(WorkerEvent::QueueDrained), WorkerAction::Ignore);
    assert_eq!(w.phase, WorkerPhase::Scanning);
    assert_eq!(w.files_failed, 0);
}
