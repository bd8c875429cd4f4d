//! The decisions of the script host, apart from the virtual machine that it
//! drives: the plan for publishing the finalized scripts, the checks made
//! before an invocation segment runs, and the steps of a wait for a
//! condition. The caller performs the work each decision names.

use vstd::prelude::*;
use crate::error::Error;
use crate::text::owned;

verus! {

broadcast use vstd::seq_lib::to_multiset_insert;

// ---------------------------------------------------------------------------
// Finalizing
// ---------------------------------------------------------------------------

/// Whether a sequence of script identifiers is in ascending order.
pub open spec fn ascending(s: Seq<u64>) -> bool {
    forall|i: int, j: int| 0 <= i <= j < s.len() ==> s[i] <= s[j]
}

/// Decide how the finalized scripts are published: refused when the API was
/// already finalized, then when the surface is not prepared; otherwise the
/// pending scripts load in ascending identifier order, and the runtime is
/// published only after every one of them has loaded.
pub fn finalize_plan(finalized: bool, surface_ready: bool, ids: &[u64]) -> (r: Result<Vec<u64>, Error>)
    ensures
        r is Err <==> finalized || !surface_ready,
        r matches Err(e) ==> e matches Error::InvalidOperation(m) && m@ == if finalized {
            "Luau API already finalized"@
        } else {
            "Luau API surface is not prepared"@
        },
        r matches Ok(order) ==> ascending(order@) && order@.to_multiset() == ids@.to_multiset(),
{
    if finalized {
        return Err(Error::InvalidOperation(owned("Luau API already finalized")));
    }
    if !surface_ready {
        return Err(Error::InvalidOperation(owned("Luau API surface is not prepared")));
    }
    let mut order: Vec<u64> = Vec::new();
    let mut i: usize = 0;
    assert(ids@.subrange(0, 0) =~= order@);
    while i < ids.len()
        invariant
            i <= ids@.len(),
            ascending(order@),
            order@.to_multiset() == ids@.subrange(0, i as int).to_multiset(),
        decreases ids@.len() - i,
    {
        let x = ids[i];
        let mut k: usize = 0;
        while k < order.len() && order[k] <= x
            invariant
                k <= order@.len(),
                forall|j: int| 0 <= j < k ==> order@[j] <= x,
            decreases order@.len() - k,
        {
            k = k + 1;
        }
        let ghost before = order@;
        order.insert(k, x);
        proof {
            assert(order@ == before.insert(k as int, x));
            assert(ids@.subrange(0, i + 1) =~= ids@.subrange(0, i as int).push(x));
            vstd::seq_lib::to_multiset_build(ids@.subrange(0, i as int), x);
            assert forall|a: int, b: int| 0 <= a <= b < order@.len() implies order@[a] <= order@[b] by {
                if a < k && b > k {
                    assert(order@[a] == before[a]);
                    assert(order@[b] == before[b - 1]);
                } else if a < k && b == k {
                    assert(order@[a] == before[a]);
                } else if a == k && b > k {
                    assert(order@[b] == before[b - 1]);
                    assert(k < before.len());
                    assert(before[k as int] > x);
                } else if a > k {
                    assert(order@[a] == before[a - 1]);
                    assert(order@[b] == before[b - 1]);
                } else if b < k {
                    assert(order@[a] == before[a]);
                    assert(order@[b] == before[b]);
                }
            }
        }
        i = i + 1;
    }
    assert(ids@.subrange(0, ids@.len() as int) =~= ids@);
    Ok(order)
}

// ---------------------------------------------------------------------------
// Invocation segments
// ---------------------------------------------------------------------------

/// Why a segment of a script invocation may not run.
#[derive(Debug, Clone, Copy, PartialEq, Eq, Structural)]
pub enum SegmentRefusal {
    /// The anchor node no longer exists; an invalid-node error.
    AnchorMissing,
    /// The anchor node now holds another widget; an invalid-node error.
    AnchorReplaced,
    /// The anchor node is not attached to the root; a detached-node error.
    AnchorDetached,
    /// The invocation has already completed; an invalid-operation error.
    Completed,
}

/// The message a refusal carries.
pub open spec fn refusal_message(r: SegmentRefusal) -> Seq<char> {
    match r {
        SegmentRefusal::AnchorMissing => "script anchor no longer exists"@,
        SegmentRefusal::AnchorReplaced => "script anchor widget was replaced"@,
        SegmentRefusal::AnchorDetached => "script anchor is detached"@,
        SegmentRefusal::Completed => "script invocation is already complete"@,
    }
}

impl SegmentRefusal {
    /// Return the message this refusal carries.
    pub fn message(&self) -> (r: &'static str)
        ensures
            r@ == refusal_message(*self),
    {
        match self {
            SegmentRefusal::AnchorMissing => "script anchor no longer exists",
            SegmentRefusal::AnchorReplaced => "script anchor widget was replaced",
            SegmentRefusal::AnchorDetached => "script anchor is detached",
            SegmentRefusal::Completed => "script invocation is already complete",
        }
    }
}

/// The checks before a segment runs, in order: the anchor must exist, hold
/// the widget incarnation recorded for the invocation (if one was), be
/// attached to the root, and the invocation must still be live. The result
/// is the incarnation to record for the invocation.
pub open spec fn segment_precheck_spec(
    current: Option<u64>,
    recorded: Option<u64>,
    attached: bool,
    live: bool,
) -> Result<u64, SegmentRefusal> {
    match current {
        None => Err(SegmentRefusal::AnchorMissing),
        Some(incarnation) => if recorded matches Some(r) && r != incarnation {
            Err(SegmentRefusal::AnchorReplaced)
        } else if !attached {
            Err(SegmentRefusal::AnchorDetached)
        } else if !live {
            Err(SegmentRefusal::Completed)
        } else {
            Ok(incarnation)
        },
    }
}

/// Decide whether a segment of a script invocation may run. `current` is
/// the incarnation of the widget now at the anchor node, absent when the
/// node is gone; `recorded` the incarnation the invocation recorded;
/// `attached` whether the anchor is attached to the root; `live` whether the
/// invocation still has a handle.
pub fn segment_precheck(current: Option<u64>, recorded: Option<u64>, attached: bool, live: bool) -> (r: Result<u64, SegmentRefusal>)
    ensures
        r == segment_precheck_spec(current, recorded, attached, live),
{
    let incarnation = match current {
        None => return Err(SegmentRefusal::AnchorMissing),
        Some(i) => i,
    };
    match recorded {
        Some(r) => {
            if r != incarnation {
                return Err(SegmentRefusal::AnchorReplaced);
            }
        },
        None => {},
    }
    if !attached {
        return Err(SegmentRefusal::AnchorDetached);
    }
    if !live {
        return Err(SegmentRefusal::Completed);
    }
    Ok(incarnation)
}

/// What the virtual machine reported for a finished segment.
#[derive(Debug, Clone, Copy, PartialEq, Eq, Structural)]
pub enum StepResult {
    /// The invocation returned values whose first one converts to a script
    /// value.
    Value,
    /// The invocation returned a first value that does not convert.
    Unconvertible,
    /// The runtime's lifecycle failed.
    Lifecycle,
    /// The invocation completed with a script error.
    Completion,
}

/// What a segment reports after the virtual machine has stepped.
#[derive(Debug, Clone, Copy, PartialEq, Eq, Structural)]
pub enum SegmentOutcome {
    /// The invocation is still running.
    Pending,
    /// The invocation finished with a value.
    Value,
    /// The invocation finished with an error reported under its label: a
    /// first value that does not convert, or a completion error.
    LabelledError,
    /// The invocation finished with a lifecycle error of the runtime.
    RuntimeError,
    /// Synchronizing the stored closures failed: that error is reported as
    /// the finished result.
    SyncFailed,
}

/// The decision after a step: whether the invocation keeps its handle,
/// whether a still-live handle must be aborted first, and what is reported.
#[derive(Debug, Clone, Copy, PartialEq, Eq, Structural)]
pub struct AfterStep {
    /// Whether the invocation keeps its handle for another segment.
    pub keep_handle: bool,
    /// Whether the live handle is aborted before reporting.
    pub abort_handle: bool,
    /// What the segment reports.
    pub outcome: SegmentOutcome,
}

/// The decision after a step: a finished step gives up the handle; a failed
/// closure synchronization aborts a handle that is still live and reports
/// its error as finished; otherwise a pending step stays pending and a
/// finished one reports what the machine returned.
pub open spec fn after_step_spec(ready: bool, result: StepResult, synchronized: bool) -> AfterStep {
    if !synchronized {
        AfterStep { keep_handle: false, abort_handle: !ready, outcome: SegmentOutcome::SyncFailed }
    } else if !ready {
        AfterStep { keep_handle: true, abort_handle: false, outcome: SegmentOutcome::Pending }
    } else {
        AfterStep {
            keep_handle: false,
            abort_handle: false,
            outcome: match result {
                StepResult::Value => SegmentOutcome::Value,
                StepResult::Unconvertible => SegmentOutcome::LabelledError,
                StepResult::Lifecycle => SegmentOutcome::RuntimeError,
                StepResult::Completion => SegmentOutcome::LabelledError,
            },
        }
    }
}

/// Decide what a segment does after the virtual machine has stepped:
/// `ready` says whether the step finished the invocation, `result` what it
/// returned when it did, and `synchronized` whether the stored closures
/// were synchronized afterwards.
pub fn after_step(ready: bool, result: StepResult, synchronized: bool) -> (r: AfterStep)
    ensures
        r == after_step_spec(ready, result, synchronized),
{
    if !synchronized {
        return AfterStep { keep_handle: false, abort_handle: !ready, outcome: SegmentOutcome::SyncFailed };
    }
    if !ready {
        return AfterStep { keep_handle: true, abort_handle: false, outcome: SegmentOutcome::Pending };
    }
    let outcome = match result {
        StepResult::Value => SegmentOutcome::Value,
        StepResult::Unconvertible => SegmentOutcome::LabelledError,
        StepResult::Lifecycle => SegmentOutcome::RuntimeError,
        StepResult::Completion => SegmentOutcome::LabelledError,
    };
    AfterStep { keep_handle: false, abort_handle: false, outcome }
}

/// Law: after a step the handle is kept exactly while the invocation is
/// pending, and a handle is aborted only when synchronization failed before
/// the invocation finished.
pub proof fn law_handle_kept_only_while_pending(ready: bool, result: StepResult, synchronized: bool)
    ensures
        after_step_spec(ready, result, synchronized).keep_handle <==> after_step_spec(ready, result, synchronized).outcome == SegmentOutcome::Pending,
        after_step_spec(ready, result, synchronized).abort_handle <==> !synchronized && !ready,
{
}

// ---------------------------------------------------------------------------
// Waiting
// ---------------------------------------------------------------------------

/// Why a wait cannot begin.
#[derive(Debug, Clone, Copy, PartialEq, Eq, Structural)]
pub enum WaitError {
    /// The start time plus the timeout is past the clock's range.
    ClockRange,
}

/// The deadline of a wait that starts at `started` with an optional timeout,
/// in the clock's ticks.
pub open spec fn wait_deadline_spec(started: u64, timeout: Option<u64>) -> Result<Option<u64>, WaitError> {
    match timeout {
        None => Ok(None),
        Some(t) => if started + t <= u64::MAX {
            Ok(Some((started + t) as u64))
        } else {
            Err(WaitError::ClockRange)
        },
    }
}

/// Compute the deadline of a wait.
pub fn wait_deadline(started: u64, timeout: Option<u64>) -> (r: Result<Option<u64>, WaitError>)
    ensures
        r == wait_deadline_spec(started, timeout),
{
    match timeout {
        None => Ok(None),
        Some(t) => match started.checked_add(t) {
            Some(d) => Ok(Some(d)),
            None => Err(WaitError::ClockRange),
        },
    }
}

/// What a wait does after testing its condition.
#[derive(Debug, Clone, Copy, PartialEq, Eq, Structural)]
pub enum WaitAction {
    /// The condition holds: the wait returns true.
    Done,
    /// The deadline has passed: the wait fails with a timeout.
    TimedOut,
    /// Park until the next publication, then test again.
    Park,
}

/// The step of a wait: done when the condition holds, timed out once the
/// clock reaches the deadline, and parked otherwise.
pub open spec fn wait_step_spec(deadline: Option<u64>, now: u64, ready: bool) -> WaitAction {
    if ready {
        WaitAction::Done
    } else if deadline matches Some(d) && now >= d {
        WaitAction::TimedOut
    } else {
        WaitAction::Park
    }
}

/// Decide the next step of a wait.
pub fn wait_step(deadline: Option<u64>, now: u64, ready: bool) -> (r: WaitAction)
    ensures
        r == wait_step_spec(deadline, now, ready),
{
    if ready {
        return WaitAction::Done;
    }
    match deadline {
        Some(d) => if now >= d {
            WaitAction::TimedOut
        } else {
            WaitAction::Park
        },
        None => WaitAction::Park,
    }
}

/// Law: a wait without a timeout never times out, and one with a timeout
/// times out exactly from its deadline on, unless its condition holds.
pub proof fn law_wait_times_out_only_at_its_deadline(started: u64, timeout: Option<u64>, now: u64, ready: bool)
    requires
        wait_deadline_spec(started, timeout) is Ok,
    ensures
        ({
            let d = wait_deadline_spec(started, timeout).unwrap();
            &&& timeout is None ==> wait_step_spec(d, now, ready) != WaitAction::TimedOut
            &&& (wait_step_spec(d, now, ready) == WaitAction::TimedOut <==> (!ready && timeout is Some && now >= started + timeout.unwrap()))
        }),
{
}

} // verus!
