use icebox::supervisor::{do_cleanup, fd_plan, supervisor_step, wait_result, SupervisorAction, WaitOutcome};
use icebox::wire::{ExecuteError, Request};

#[test]
fn exits_map_to_statuses() {
    assert_eq!(wait_result(WaitOutcome::Exited(0)), Ok(0));
    assert_eq!(wait_result(WaitOutcome::Exited(3)), Ok(3));
}

#[test]
fn abort_maps_to_sigabrt() {
    // A payload that calls abort() dies by signal 6.
    assert_eq!(wait_result(WaitOutcome::Signaled(6)), Err(ExecuteError::Signaled(6)));
    assert_eq!(wait_result(WaitOutcome::Signaled(9)), Err(ExecuteError::Signaled(9)));
}

#[test]
fn opened_descriptor_is_closed_iff_not_requested() {
    // Opened as 5, wanted at 0 and 1: duplicate twice, close the original.
    assert_eq!(fd_plan(5, &vec![0, 1]), (vec![0, 1], true));
    // Opened right where it is wanted: nothing to duplicate, keep it open.
    assert_eq!(fd_plan(1, &vec![1]), (vec![], false));
    // Opened at 3, wanted at 3 and 4: one duplicate, keep the original.
    assert_eq!(fd_plan(3, &vec![3, 4]), (vec![4], false));
    // Nothing requested: just close it again.
    assert_eq!(fd_plan(7, &vec![]), (vec![], true));
}

#[test]
fn requests_dispatch_to_actions() {
    assert!(matches!(
        supervisor_step(Some(Request::Cleanup)),
        SupervisorAction::CleanTmp
    ));
    assert!(matches!(supervisor_step(None), SupervisorAction::Shutdown));
}

#[test]
fn cleanup_empties_the_guest_tmp() {
    assert_eq!(do_cleanup(), "/tmp");
}
