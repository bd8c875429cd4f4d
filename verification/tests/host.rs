use canopy::error::Error;
use canopy::host::{finalize_plan, segment_precheck, wait_deadline, wait_step, SegmentRefusal, WaitAction, WaitError};

#[test]
fn finalize_refuses_twice_and_before_the_surface() {
    assert_eq!(
        finalize_plan(true, true, &[1]),
        Err(Error::InvalidOperation("Luau API already finalized".to_string()))
    );
    assert_eq!(
        finalize_plan(false, false, &[1]),
        Err(Error::InvalidOperation("Luau API surface is not prepared".to_string()))
    );
}

#[test]
fn finalize_loads_scripts_in_identifier_order() {
    assert_eq!(finalize_plan(false, true, &[7, 2, 9, 2, 0]), Ok(vec![0, 2, 2, 7, 9]));
    assert_eq!(finalize_plan(false, true, &[]), Ok(vec![]));
}

#[test]
fn segment_checks_come_in_order() {
    assert_eq!(segment_precheck(None, Some(1), false, false), Err(SegmentRefusal::AnchorMissing));
    assert_eq!(segment_precheck(Some(2), Some(1), false, true), Err(SegmentRefusal::AnchorReplaced));
    assert_eq!(segment_precheck(Some(2), Some(2), false, true), Err(SegmentRefusal::AnchorDetached));
    assert_eq!(segment_precheck(Some(2), None, true, false), Err(SegmentRefusal::Completed));
    assert_eq!(segment_precheck(Some(5), None, true, true), Ok(5));
    assert_eq!(SegmentRefusal::AnchorDetached.message(), "script anchor is detached");
}

#[test]
fn waits_time_out_at_their_deadline() {
    assert_eq!(wait_deadline(100, None), Ok(None));
    assert_eq!(wait_deadline(100, Some(50)), Ok(Some(150)));
    assert_eq!(wait_deadline(u64::MAX, Some(1)), Err(WaitError::ClockRange));
    assert_eq!(wait_step(Some(150), 149, false), WaitAction::Park);
    assert_eq!(wait_step(Some(150), 150, false), WaitAction::TimedOut);
    assert_eq!(wait_step(Some(150), 200, true), WaitAction::Done);
    assert_eq!(wait_step(None, u64::MAX, false), WaitAction::Park);
}

use canopy::host::{after_step, AfterStep, SegmentOutcome, StepResult};

#[test]
fn after_a_step_the_handle_goes_with_the_result() {
    assert_eq!(
        after_step(false, StepResult::Value, true),
        AfterStep { keep_handle: true, abort_handle: false, outcome: SegmentOutcome::Pending }
    );
    assert_eq!(after_step(true, StepResult::Completion, true).outcome, SegmentOutcome::LabelledError);
    assert_eq!(after_step(true, StepResult::Lifecycle, true).outcome, SegmentOutcome::RuntimeError);
    assert_eq!(
        after_step(false, StepResult::Value, false),
        AfterStep { keep_handle: false, abort_handle: true, outcome: SegmentOutcome::SyncFailed }
    );
    assert!(!after_step(true, StepResult::Value, false).abort_handle);
}
