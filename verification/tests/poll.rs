use canopy::error::Error;
use canopy::id::NodeId;
use canopy::poll::{Poller, WorkStamp};

const SECOND: u64 = 1_000_000_000;

fn stamp() -> WorkStamp {
    WorkStamp { node: NodeId(1), incarnation: 1, attachment: None }
}

#[test]
fn rescheduling_and_cancellation_use_latest_incarnation() -> Result<(), Error> {
    let mut poller = Poller::new();
    let start = 0;
    let old = stamp();
    poller.schedule(old, start, 10 * SECOND)?;
    let current = WorkStamp { incarnation: 2, ..old };
    poller.schedule(current, start, 20 * SECOND)?;
    poller.cancel_owner(old.node, old.incarnation);
    assert!(poller.collect_due(start + 15 * SECOND).is_empty());
    assert_eq!(poller.collect_due(start + 20 * SECOND), [current]);
    assert_eq!(poller.next_deadline(), None);
    Ok(())
}

#[test]
fn repeated_rescheduling_bounds_heap_storage() -> Result<(), Error> {
    let mut poller = Poller::new();
    let owner = stamp();
    for delay in 0..10_000 {
        poller.schedule(owner, 0, delay * SECOND)?;
        assert!(poller.len() <= 2);
    }
    poller.cancel_owner(owner.node, owner.incarnation);
    assert_eq!(poller.len(), 0);
    assert_eq!(poller.next_deadline(), None);
    Ok(())
}

#[test]
fn lifetime_cancellation_discards_due_work() -> Result<(), Error> {
    let mut poller = Poller::new();
    let owner = WorkStamp { attachment: Some(4), ..stamp() };
    poller.schedule(owner, 0, 0)?;
    poller.retain(|stamp| stamp.attachment.is_none());
    assert!(poller.collect_due(0).is_empty());
    Ok(())
}

#[test]
fn due_callbacks_come_out_in_deadline_order() -> Result<(), Error> {
    let mut poller = Poller::new();
    let a = WorkStamp { node: NodeId(1), incarnation: 1, attachment: None };
    let b = WorkStamp { node: NodeId(2), incarnation: 1, attachment: None };
    let c = WorkStamp { node: NodeId(3), incarnation: 1, attachment: None };
    poller.schedule(c, 100, 30)?;
    poller.schedule(a, 100, 10)?;
    poller.schedule(b, 100, 10)?;
    assert_eq!(poller.next_deadline(), Some(110));
    assert_eq!(poller.collect_due(120), [a, b]);
    assert_eq!(poller.next_deadline(), Some(130));
    assert!(poller.has_pending());
    Ok(())
}

#[test]
fn deadline_overflow_is_refused() {
    let mut poller = Poller::new();
    assert!(matches!(poller.schedule(stamp(), u64::MAX, 1), Err(Error::RunLoop(_))));
    assert!(!poller.has_pending());
}

#[test]
fn the_clock_may_change_only_while_nothing_is_pending() -> Result<(), Error> {
    let mut poller = Poller::new();
    assert!(poller.check_clock_change().is_ok());
    poller.schedule(stamp(), 0, SECOND)?;
    assert!(matches!(poller.check_clock_change(), Err(Error::InvalidOperation(_))));
    assert_eq!(poller.collect_due(SECOND), [stamp()]);
    assert!(poller.check_clock_change().is_ok());
    Ok(())
}
