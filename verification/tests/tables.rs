use rush::worker::{ProcInfo, ProcState, Worker};
use std::collections::HashMap;

fn run(pgid: i32) -> ProcInfo {
    ProcInfo {
        state: ProcState::Run,
        pgid,
    }
}

/// A worker with the job 0 of the processes 10 and 11, in the group 10.
fn worker() -> Worker {
    let mut worker = Worker::new(1);
    let mut pids = HashMap::new();
    pids.insert(10, run(10));
    pids.insert(11, run(10));
    worker.insert_job(0, 10, pids, "a | b");
    worker
}

#[test]
fn a_new_worker_is_empty() {
    let worker = Worker::new(77);
    assert_eq!(worker.exit_val(), 0);
    assert_eq!(worker.fg(), None);
    assert_eq!(worker.shell_pgid(), 77);
    assert!(worker.no_jobs());
    assert!(worker.job_ids().is_empty());
    assert_eq!(worker.job(0), None);
    assert!(!worker.knows(77));
    assert!(!worker.has_group(77));
    assert_eq!(worker.info(77), None);
    assert_eq!(worker.is_group_stop(77), None);
    assert_eq!(worker.get_new_job_id(), Some(0));
}

#[test]
fn a_job_is_entered_in_all_tables() {
    let worker = worker();
    assert!(!worker.no_jobs());
    assert_eq!(worker.job(0), Some((10, "a | b")));
    assert_eq!(worker.job(1), None);
    assert_eq!(worker.job_ids(), vec![0]);
    assert!(worker.has_group(10));
    assert!(!worker.has_group(11));
    assert!(worker.knows(10));
    assert!(worker.knows(11));
    assert_eq!(worker.info(11), Some(run(10)));
    assert!(!worker.is_group_empty(10));
    assert_eq!(worker.is_group_stop(10), Some(false));
}

#[test]
fn setting_a_state_returns_the_former_one() {
    let mut worker = worker();
    assert_eq!(worker.set_pid_state(10, ProcState::Stop), Some(ProcState::Run));
    assert_eq!(worker.is_group_stop(10), Some(false));
    assert_eq!(worker.set_pid_state(11, ProcState::Stop), Some(ProcState::Run));
    assert_eq!(worker.is_group_stop(10), Some(true));
    assert_eq!(worker.set_pid_state(12, ProcState::Stop), None);
    assert_eq!(worker.set_pid_state(10, ProcState::Run), Some(ProcState::Stop));
    assert_eq!(worker.info(10), Some(run(10)));
}

#[test]
fn a_process_is_removed_once() {
    let mut worker = worker();
    assert_eq!(worker.remove_pid(99), None);
    assert_eq!(worker.remove_pid(10), Some((0, 10)));
    assert!(!worker.knows(10));
    assert_eq!(worker.remove_pid(10), None);
    assert!(worker.has_group(10));
    assert!(!worker.is_group_empty(10));
    assert_eq!(worker.remove_pid(11), Some((0, 10)));
    assert!(worker.is_group_empty(10));
    assert_eq!(worker.is_group_stop(10), Some(true));
    assert_eq!(worker.job(0), Some((10, "a | b")));
}

#[test]
fn a_job_is_removed_with_its_group() {
    let mut worker = worker();
    worker.remove_pid(10);
    worker.remove_pid(11);
    worker.remove_job(5);
    assert_eq!(worker.job(0), Some((10, "a | b")));
    worker.remove_job(0);
    assert!(worker.no_jobs());
    assert!(!worker.has_group(10));
}

#[test]
fn the_smallest_free_number_is_taken() {
    let mut worker = Worker::new(1);
    for (job_id, pgid) in [(0, 10), (1, 20), (3, 30), (2, 40)] {
        let mut pids = HashMap::new();
        pids.insert(pgid, run(pgid));
        worker.insert_job(job_id, pgid, pids, "x");
    }
    assert_eq!(worker.job_ids(), vec![0, 1, 2, 3]);
    assert_eq!(worker.get_new_job_id(), Some(4));
    worker.remove_pid(20);
    worker.remove_job(1);
    assert_eq!(worker.get_new_job_id(), Some(1));
    assert_eq!(worker.job_ids(), vec![0, 2, 3]);
}
