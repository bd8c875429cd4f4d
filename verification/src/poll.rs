//! Deadlines for widget poll callbacks, serviced by the application driver.
//!
//! Times are monotonic instants and spans in nanoseconds, read from a clock
//! by the caller; the scheduler decides which callbacks are due.

use vstd::prelude::*;
use crate::error::Error;
use crate::id::NodeId;

verus! {

/// The widget incarnation, and optional attachment, that own a callback.
#[derive(Debug, Clone, Copy, PartialEq, Eq, Hash, Structural)]
pub struct WorkStamp {
    /// Owning node.
    pub node: NodeId,
    /// Incarnation of the widget at the node.
    pub incarnation: u64,
    /// Attachment whose lifetime bounds the callback, if any.
    pub attachment: Option<u64>,
}

/// One scheduled incarnation of a node callback.
#[derive(Debug, Clone, Copy, PartialEq, Eq, Structural)]
pub struct PendingNode {
    /// Monotonic instant when this callback becomes due.
    pub deadline: u64,
    /// Widget incarnation and optional attachment that own this callback.
    pub stamp: WorkStamp,
}

/// The order of optional attachments: none first, then by value.
pub open spec fn attachment_lt(a: Option<u64>, b: Option<u64>) -> bool {
    match (a, b) {
        (None, Some(_)) => true,
        (Some(x), Some(y)) => x < y,
        _ => false,
    }
}

/// The order of stamps: by node, incarnation, then attachment.
pub open spec fn stamp_lt(a: WorkStamp, b: WorkStamp) -> bool {
    ||| a.node.0 < b.node.0
    ||| a.node.0 == b.node.0 && a.incarnation < b.incarnation
    ||| a.node.0 == b.node.0 && a.incarnation == b.incarnation && attachment_lt(a.attachment, b.attachment)
}

/// The order in which callbacks fall due: by deadline, then by stamp.
pub open spec fn entry_lt(a: PendingNode, b: PendingNode) -> bool {
    a.deadline < b.deadline || (a.deadline == b.deadline && stamp_lt(a.stamp, b.stamp))
}

/// Pending callbacks in due order, one per node.
pub open spec fn pending_wf(s: Seq<PendingNode>) -> bool {
    &&& forall|i: int, j: int| 0 <= i < j < s.len() ==> entry_lt(#[trigger] s[i], #[trigger] s[j])
    &&& forall|i: int, j: int| 0 <= i < s.len() && 0 <= j < s.len() && i != j ==> (#[trigger] s[i]).stamp.node != (#[trigger] s[j]).stamp.node
}

/// Return whether one callback falls due before another.
fn entry_before(a: &PendingNode, b: &PendingNode) -> (r: bool)
    ensures
        r == entry_lt(*a, *b),
{
    if a.deadline != b.deadline {
        return a.deadline < b.deadline;
    }
    if a.stamp.node.0 != b.stamp.node.0 {
        return a.stamp.node.0 < b.stamp.node.0;
    }
    if a.stamp.incarnation != b.stamp.incarnation {
        return a.stamp.incarnation < b.stamp.incarnation;
    }
    match (a.stamp.attachment, b.stamp.attachment) {
        (None, Some(_)) => true,
        (Some(x), Some(y)) => x < y,
        _ => false,
    }
}

/// Deadline queue with one authoritative entry per node, kept in due order.
#[derive(Debug)]
pub struct PendingHeap {
    /// Entries in due order.
    entries: Vec<PendingNode>,
}

impl View for PendingHeap {
    type V = Seq<PendingNode>;

    closed spec fn view(&self) -> Seq<PendingNode> {
        self.entries@
    }
}

/// Removing one entry keeps the entries in due order, one per node.
proof fn lemma_remove_wf(s: Seq<PendingNode>, i: int)
    requires
        pending_wf(s),
        0 <= i < s.len(),
    ensures
        pending_wf(s.remove(i)),
        forall|e: PendingNode| s.remove(i).contains(e) <==> (s.contains(e) && e != s[i]),
{
    let r = s.remove(i);
    assert forall|a: int| 0 <= a < r.len() implies r[a] == s[if a < i { a } else { a + 1 }] by {}
    assert forall|a: int, b: int| 0 <= a < b < r.len() implies entry_lt(#[trigger] r[a], #[trigger] r[b]) by {
        assert(r[a] == s[if a < i { a } else { a + 1 }]);
        assert(r[b] == s[if b < i { b } else { b + 1 }]);
    }
    assert forall|a: int, b: int| 0 <= a < r.len() && 0 <= b < r.len() && a != b implies (#[trigger] r[a]).stamp.node != (#[trigger] r[b]).stamp.node by {
        assert(r[a] == s[if a < i { a } else { a + 1 }]);
        assert(r[b] == s[if b < i { b } else { b + 1 }]);
    }
    assert forall|e: PendingNode| r.contains(e) <==> (s.contains(e) && e != s[i]) by {
        if r.contains(e) {
            let a = choose|a: int| 0 <= a < r.len() && r[a] == e;
            assert(r[a] == s[if a < i { a } else { a + 1 }]);
            let j = if a < i { a } else { a + 1 };
            assert(s[j].stamp.node != s[i].stamp.node);
        }
        if s.contains(e) && e != s[i] {
            let j = choose|j: int| 0 <= j < s.len() && s[j] == e;
            let a = if j < i { j } else { j - 1 };
            assert(r[a] == s[j]);
        }
    }
}

impl PendingHeap {
    /// Construct an empty queue.
    pub fn new() -> (r: Self)
        ensures
            r@ == Seq::<PendingNode>::empty(),
    {
        PendingHeap { entries: Vec::new() }
    }

    /// Whether the queue is well formed.
    pub closed spec fn wf(&self) -> bool {
        pending_wf(self@)
    }

    /// Return the number of pending callbacks.
    pub fn len(&self) -> (r: usize)
        ensures
            r == self@.len(),
    {
        self.entries.len()
    }

    /// Remove the entry of a node, if any.
    fn remove_node(&mut self, node: NodeId)
        requires
            pending_wf(old(self)@),
        ensures
            pending_wf(final(self)@),
            forall|e: PendingNode| final(self)@.contains(e) <==> (old(self)@.contains(e) && e.stamp.node != node),
    {
        let n = self.entries.len();
        let mut i: usize = 0;
        while i < n
            invariant
                n == self@.len(),
                self@ == old(self)@,
                pending_wf(self@),
                i <= n,
                forall|j: int| 0 <= j < i ==> self@[j].stamp.node != node,
            decreases n - i,
        {
            if self.entries[i].stamp.node.0 == node.0 {
                let ghost s = self@;
                self.entries.remove(i);
                proof {
                    lemma_remove_wf(s, i as int);
                    assert forall|e: PendingNode| self@.contains(e) <==> (s.contains(e) && e.stamp.node != node) by {
                        if s.contains(e) && e.stamp.node == node {
                            let j = choose|j: int| 0 <= j < s.len() && s[j] == e;
                            if j != i {
                                assert(s[j].stamp.node != s[i as int].stamp.node);
                            }
                        }
                    }
                }
                return;
            }
            i = i + 1;
        }
        proof {
            assert forall|e: PendingNode| self@.contains(e) <==> (old(self)@.contains(e) && e.stamp.node != node) by {
                if self@.contains(e) {
                    let j = choose|j: int| 0 <= j < self@.len() && self@[j] == e;
                }
            }
        }
    }

    /// Replace the deadline of the callback's node.
    pub fn schedule(&mut self, stamp: WorkStamp, deadline: u64)
        requires
            pending_wf(old(self)@),
        ensures
            pending_wf(final(self)@),
            forall|e: PendingNode| final(self)@.contains(e) <==> (e == (PendingNode { deadline, stamp })
                || (old(self)@.contains(e) && e.stamp.node != stamp.node)),
    {
        self.remove_node(stamp.node);
        let pending = PendingNode { deadline, stamp };
        let ghost s = self@;
        let n = self.entries.len();
        let mut pos: usize = 0;
        while pos < n && !entry_before(&pending, &self.entries[pos])
            invariant
                n == s.len(),
                s == self@,
                pos <= n,
                forall|j: int| 0 <= j < pos ==> !entry_lt(pending, #[trigger] s[j]),
            decreases n - pos,
        {
            pos = pos + 1;
        }
        self.entries.insert(pos, pending);
        proof {
            let r = self@;
            assert(r == s.insert(pos as int, pending));
            assert forall|j: int| 0 <= j < s.len() implies s[j].stamp.node != pending.stamp.node by {
                assert(s.contains(s[j]));
            }
            assert forall|j: int| 0 <= j < pos implies entry_lt(#[trigger] s[j], pending) by {
                assert(!entry_lt(pending, s[j]));
                assert(s[j].stamp.node != pending.stamp.node);
            }
            assert forall|j: int| pos <= j < s.len() implies entry_lt(pending, #[trigger] s[j]) by {
                if j > pos {
                    assert(entry_lt(s[pos as int], s[j]));
                }
            }
            assert forall|a: int| 0 <= a < r.len() implies r[a] == (if a < pos { s[a] } else if a == pos { pending } else { s[a - 1] }) by {}
            assert forall|a: int, b: int| 0 <= a < b < r.len() implies entry_lt(#[trigger] r[a], #[trigger] r[b]) by {
                assert(r[a] == (if a < pos { s[a] } else if a == pos { pending } else { s[a - 1] }));
                assert(r[b] == (if b < pos { s[b] } else if b == pos { pending } else { s[b - 1] }));
            }
            assert forall|a: int, b: int| 0 <= a < r.len() && 0 <= b < r.len() && a != b implies (#[trigger] r[a]).stamp.node != (#[trigger] r[b]).stamp.node by {
                assert(r[a] == (if a < pos { s[a] } else if a == pos { pending } else { s[a - 1] }));
                assert(r[b] == (if b < pos { s[b] } else if b == pos { pending } else { s[b - 1] }));
            }
            assert forall|e: PendingNode| r.contains(e) <==> (e == pending || s.contains(e)) by {
                if r.contains(e) {
                    let a = choose|a: int| 0 <= a < r.len() && r[a] == e;
                    assert(r[a] == (if a < pos { s[a] } else if a == pos { pending } else { s[a - 1] }));
                }
                if s.contains(e) {
                    let j = choose|j: int| 0 <= j < s.len() && s[j] == e;
                    if j < pos {
                        assert(r[j] == s[j]);
                    } else {
                        assert(r[j + 1] == s[j]);
                    }
                }
                if e == pending {
                    assert(r[pos as int] == pending);
                }
            }
        }
    }

    /// Return the earliest pending deadline.
    pub fn next_deadline(&self) -> (r: Option<u64>)
        requires
            pending_wf(self@),
        ensures
            self@.len() == 0 <==> r is None,
            r matches Some(d) ==> d == self@[0].deadline && forall|i: int| 0 <= i < self@.len() ==> d <= #[trigger] self@[i].deadline,
    {
        if self.entries.len() == 0 {
            None
        } else {
            proof {
                assert forall|i: int| 0 <= i < self@.len() implies self@[0].deadline <= #[trigger] self@[i].deadline by {
                    if i > 0 {
                        assert(entry_lt(self@[0], self@[i]));
                    }
                }
            }
            Some(self.entries[0].deadline)
        }
    }

    /// Remove and return every callback due at `now`, in due order.
    pub fn collect(&mut self, now: u64) -> (due: Vec<WorkStamp>)
        requires
            pending_wf(old(self)@),
        ensures
            pending_wf(final(self)@),
            final(self)@.len() <= old(self)@.len(),
            ({
                let k = old(self)@.len() - final(self)@.len();
                &&& final(self)@ == old(self)@.subrange(k, old(self)@.len() as int)
                &&& due@ == old(self)@.subrange(0, k).map_values(|e: PendingNode| e.stamp)
                &&& forall|i: int| 0 <= i < k ==> (#[trigger] old(self)@[i]).deadline <= now
                &&& forall|i: int| k <= i < old(self)@.len() ==> (#[trigger] old(self)@[i]).deadline > now
            }),
    {
        let ghost s = self@;
        let n = self.entries.len();
        let mut due: Vec<WorkStamp> = Vec::new();
        let mut k: usize = 0;
        while k < n && self.entries[k].deadline <= now
            invariant
                n == s.len(),
                s == self@,
                k <= n,
                due@ == s.subrange(0, k as int).map_values(|e: PendingNode| e.stamp),
                forall|i: int| 0 <= i < k ==> (#[trigger] s[i]).deadline <= now,
            decreases n - k,
        {
            due.push(self.entries[k].stamp);
            k = k + 1;
            assert(due@ =~= s.subrange(0, k as int).map_values(|e: PendingNode| e.stamp));
        }
        proof {
            assert forall|i: int| k <= i < s.len() implies (#[trigger] s[i]).deadline > now by {
                if i > k {
                    assert(entry_lt(s[k as int], s[i]));
                }
            }
        }
        let rest = self.entries.split_off(k);
        self.entries = rest;
        proof {
            let r = self@;
            assert(r == s.subrange(k as int, s.len() as int));
            assert forall|a: int, b: int| 0 <= a < b < r.len() implies entry_lt(#[trigger] r[a], #[trigger] r[b]) by {
                assert(r[a] == s[a + k] && r[b] == s[b + k]);
            }
            assert forall|a: int, b: int| 0 <= a < r.len() && 0 <= b < r.len() && a != b implies (#[trigger] r[a]).stamp.node != (#[trigger] r[b]).stamp.node by {
                assert(r[a] == s[a + k] && r[b] == s[b + k]);
            }
        }
        due
    }

    /// Cancel the callback of a widget incarnation.
    pub fn cancel_owner(&mut self, node: NodeId, incarnation: u64)
        requires
            pending_wf(old(self)@),
        ensures
            pending_wf(final(self)@),
            forall|e: PendingNode| final(self)@.contains(e) <==> (old(self)@.contains(e)
                && !(e.stamp.node == node && e.stamp.incarnation == incarnation)),
    {
        let n = self.entries.len();
        let mut i: usize = 0;
        while i < n
            invariant
                n == self@.len(),
                self@ == old(self)@,
                pending_wf(self@),
                i <= n,
                forall|j: int| 0 <= j < i ==> self@[j].stamp.node != node,
            decreases n - i,
        {
            if self.entries[i].stamp.node.0 == node.0 {
                if self.entries[i].stamp.incarnation == incarnation {
                    let ghost s = self@;
                    self.entries.remove(i);
                    proof {
                        lemma_remove_wf(s, i as int);
                        assert forall|e: PendingNode| self@.contains(e) <==> (s.contains(e)
                            && !(e.stamp.node == node && e.stamp.incarnation == incarnation)) by {
                            if s.contains(e) && e.stamp.node == node && e.stamp.incarnation == incarnation {
                                let j = choose|j: int| 0 <= j < s.len() && s[j] == e;
                                if j != i {
                                    assert(s[j].stamp.node != s[i as int].stamp.node);
                                }
                            }
                        }
                    }
                } else {
                    proof {
                        assert forall|e: PendingNode| self@.contains(e) <==> (old(self)@.contains(e)
                            && !(e.stamp.node == node && e.stamp.incarnation == incarnation)) by {
                            if self@.contains(e) && e.stamp.node == node {
                                let j = choose|j: int| 0 <= j < self@.len() && self@[j] == e;
                                if j != i {
                                    assert(self@[j].stamp.node != self@[i as int].stamp.node);
                                }
                            }
                        }
                    }
                }
                return;
            }
            i = i + 1;
        }
        proof {
            assert forall|e: PendingNode| self@.contains(e) <==> (old(self)@.contains(e)
                && !(e.stamp.node == node && e.stamp.incarnation == incarnation)) by {
                if self@.contains(e) {
                    let j = choose|j: int| 0 <= j < self@.len() && self@[j] == e;
                }
            }
        }
    }
}

impl PendingHeap {
    /// Keep only the callbacks whose stamp `valid` accepts, in due order.
    pub fn retain<F: Fn(WorkStamp) -> bool>(&mut self, valid: F)
        requires
            pending_wf(old(self)@),
            forall|st: WorkStamp| valid.requires((st,)),
        ensures
            pending_wf(final(self)@),
            forall|e: PendingNode| #[trigger] final(self)@.contains(e) ==> old(self)@.contains(e) && valid.ensures((e.stamp,), true),
            forall|e: PendingNode| old(self)@.contains(e) && !final(self)@.contains(e) ==> valid.ensures((e.stamp,), false),
    {
        let ghost s = self@;
        let n = self.entries.len();
        let mut kept: Vec<PendingNode> = Vec::new();
        let mut i: usize = 0;
        while i < n
            invariant
                n == s.len(),
                s == self@,
                pending_wf(s),
                i <= n,
                forall|st: WorkStamp| valid.requires((st,)),
                forall|a: int, b: int| 0 <= a < b < kept@.len() ==> entry_lt(#[trigger] kept@[a], #[trigger] kept@[b]),
                forall|a: int, b: int| 0 <= a < kept@.len() && 0 <= b < kept@.len() && a != b ==> (#[trigger] kept@[a]).stamp.node != (#[trigger] kept@[b]).stamp.node,
                forall|a: int| 0 <= a < kept@.len() ==> exists|j: int| 0 <= j < i && #[trigger] kept@[a] == s[j],
                forall|a: int| 0 <= a < kept@.len() ==> valid.ensures(((#[trigger] kept@[a]).stamp,), true),
                forall|j: int| 0 <= j < i ==> (kept@.contains(#[trigger] s[j]) || valid.ensures((s[j].stamp,), false)),
            decreases n - i,
        {
            let e = self.entries[i];
            let ok = valid(e.stamp);
            let ghost before = kept@;
            if ok {
                kept.push(e);
                proof {
                    assert forall|a: int| 0 <= a < before.len() implies entry_lt(before[a], e) && before[a].stamp.node != e.stamp.node by {
                        let j = choose|j: int| 0 <= j < i && before[a] == s[j];
                        assert(entry_lt(s[j], s[i as int]));
                    }
                    assert forall|a: int| 0 <= a < kept@.len() implies exists|j: int| 0 <= j < i + 1 && #[trigger] kept@[a] == s[j] by {
                        if a < before.len() {
                            let j = choose|j: int| 0 <= j < i && before[a] == s[j];
                            assert(kept@[a] == s[j]);
                        } else {
                            assert(kept@[a] == s[i as int]);
                        }
                    }
                    assert forall|j: int| 0 <= j < i + 1 implies (kept@.contains(#[trigger] s[j]) || valid.ensures((s[j].stamp,), false)) by {
                        if j < i {
                            if before.contains(s[j]) {
                                let a = choose|a: int| 0 <= a < before.len() && before[a] == s[j];
                                assert(kept@[a] == s[j]);
                            }
                        } else {
                            assert(kept@[before.len() as int] == s[j]);
                        }
                    }
                }
            } else {
                proof {
                    assert forall|a: int| 0 <= a < kept@.len() implies exists|j: int| 0 <= j < i + 1 && #[trigger] kept@[a] == s[j] by {
                        let j = choose|j: int| 0 <= j < i && kept@[a] == s[j];
                    }
                }
            }
            i = i + 1;
        }
        self.entries = kept;
        proof {
            let r = self@;
            assert forall|e: PendingNode| #[trigger] r.contains(e) implies s.contains(e) && valid.ensures((e.stamp,), true) by {
                let a = choose|a: int| 0 <= a < r.len() && r[a] == e;
                let j = choose|j: int| 0 <= j < n && r[a] == s[j];
            }
            assert forall|e: PendingNode| s.contains(e) && !r.contains(e) implies valid.ensures((e.stamp,), false) by {
                let j = choose|j: int| 0 <= j < s.len() && s[j] == e;
            }
        }
    }
}

/// Poll deadlines serviced by the application driver without a worker
/// thread. Callers read the current instant from their clock and pass it in.
#[derive(Debug)]
pub struct Poller {
    /// Scheduled callbacks owned by this application.
    pending: PendingHeap,
}

impl View for Poller {
    type V = Seq<PendingNode>;

    closed spec fn view(&self) -> Seq<PendingNode> {
        self.pending@
    }
}

impl Poller {
    /// Construct a scheduler with nothing pending.
    pub fn new() -> (r: Self)
        ensures
            r@ == Seq::<PendingNode>::empty(),
    {
        Poller { pending: PendingHeap::new() }
    }

    /// Return the number of pending callbacks.
    pub fn len(&self) -> (r: usize)
        ensures
            r == self@.len(),
    {
        self.pending.len()
    }

    /// Whether any callback is pending.
    pub fn has_pending(&self) -> (r: bool)
        ensures
            r == (self@.len() > 0),
    {
        self.pending.len() > 0
    }

    /// Decide whether the time source may be replaced: only while nothing is
    /// pending, since pending deadlines were measured against the old one.
    pub fn check_clock_change(&self) -> (r: Result<(), Error>)
        ensures
            r is Ok <==> self@.len() == 0,
            r matches Err(e) ==> e is InvalidOperation,
    {
        if self.pending.len() > 0 {
            Err(Error::InvalidOperation("cannot replace a clock with pending poll deadlines".to_string()))
        } else {
            Ok(())
        }
    }

    /// Replace the pending callback for this owner, due `duration` after
    /// `now`.
    ///
    /// Fails with `Error::RunLoop`, leaving the schedule unchanged, when the
    /// deadline overflows.
    pub fn schedule(&mut self, stamp: WorkStamp, now: u64, duration: u64) -> (r: Result<(), Error>)
        requires
            pending_wf(old(self)@),
        ensures
            pending_wf(final(self)@),
            r is Err <==> now + duration > u64::MAX,
            r is Err ==> final(self)@ == old(self)@ && r->Err_0 is RunLoop,
            r is Ok ==> forall|e: PendingNode| final(self)@.contains(e) <==> (e == (PendingNode { deadline: (now + duration) as u64, stamp })
                || (old(self)@.contains(e) && e.stamp.node != stamp.node)),
    {
        match now.checked_add(duration) {
            Some(deadline) => {
                self.pending.schedule(stamp, deadline);
                Ok(())
            },
            None => Err(Error::RunLoop("poll deadline overflow".to_string())),
        }
    }

    /// Cancel work belonging to the specified widget incarnation.
    pub fn cancel_owner(&mut self, node: NodeId, incarnation: u64)
        requires
            pending_wf(old(self)@),
        ensures
            pending_wf(final(self)@),
            forall|e: PendingNode| final(self)@.contains(e) <==> (old(self)@.contains(e)
                && !(e.stamp.node == node && e.stamp.incarnation == incarnation)),
    {
        self.pending.cancel_owner(node, incarnation);
    }

    /// Cancel work whose lifetime `valid` no longer accepts.
    pub fn retain<F: Fn(WorkStamp) -> bool>(&mut self, valid: F)
        requires
            pending_wf(old(self)@),
            forall|st: WorkStamp| valid.requires((st,)),
        ensures
            pending_wf(final(self)@),
            forall|e: PendingNode| #[trigger] final(self)@.contains(e) ==> old(self)@.contains(e) && valid.ensures((e.stamp,), true),
            forall|e: PendingNode| old(self)@.contains(e) && !final(self)@.contains(e) ==> valid.ensures((e.stamp,), false),
    {
        self.pending.retain(valid);
    }

    /// Return the earliest pending deadline.
    pub fn next_deadline(&self) -> (r: Option<u64>)
        requires
            pending_wf(self@),
        ensures
            self@.len() == 0 <==> r is None,
            r matches Some(d) ==> d == self@[0].deadline && forall|i: int| 0 <= i < self@.len() ==> d <= #[trigger] self@[i].deadline,
    {
        self.pending.next_deadline()
    }

    /// Remove and return the callbacks due at `now`, in due order.
    pub fn collect_due(&mut self, now: u64) -> (due: Vec<WorkStamp>)
        requires
            pending_wf(old(self)@),
        ensures
            pending_wf(final(self)@),
            final(self)@.len() <= old(self)@.len(),
            ({
                let k = old(self)@.len() - final(self)@.len();
                &&& final(self)@ == old(self)@.subrange(k, old(self)@.len() as int)
                &&& due@ == old(self)@.subrange(0, k).map_values(|e: PendingNode| e.stamp)
                &&& forall|i: int| 0 <= i < k ==> (#[trigger] old(self)@[i]).deadline <= now
                &&& forall|i: int| k <= i < old(self)@.len() ==> (#[trigger] old(self)@[i]).deadline > now
            }),
    {
        self.pending.collect(now)
    }
}

/// Law: the due order is determined by the pending callbacks alone: two
/// queues in due order, one entry per node, that hold the same callbacks are
/// the same sequence.
pub proof fn law_due_order_is_determined(a: Seq<PendingNode>, b: Seq<PendingNode>)
    requires
        pending_wf(a),
        pending_wf(b),
        forall|e: PendingNode| a.contains(e) <==> b.contains(e),
    ensures
        a == b,
    decreases a.len(),
{
    if a.len() == 0 {
        if b.len() > 0 {
            assert(b.contains(b[0]));
        }
        assert(b =~= a);
    } else {
        assert(a.contains(a[0]));
        assert(b.len() > 0);
        assert(b.contains(b[0]));
        if a[0] != b[0] {
            let j = choose|j: int| 0 <= j < b.len() && b[j] == a[0];
            let i = choose|i: int| 0 <= i < a.len() && a[i] == b[0];
            assert(entry_lt(b[0], b[j]));
            assert(entry_lt(a[0], a[i]));
        }
        let a2 = a.drop_first();
        let b2 = b.drop_first();
        assert forall|x: int, y: int| 0 <= x < y < a2.len() implies entry_lt(#[trigger] a2[x], #[trigger] a2[y]) by {
            assert(a2[x] == a[x + 1] && a2[y] == a[y + 1]);
        }
        assert forall|x: int, y: int| 0 <= x < a2.len() && 0 <= y < a2.len() && x != y implies (#[trigger] a2[x]).stamp.node != (#[trigger] a2[y]).stamp.node by {
            assert(a2[x] == a[x + 1] && a2[y] == a[y + 1]);
        }
        assert forall|x: int, y: int| 0 <= x < y < b2.len() implies entry_lt(#[trigger] b2[x], #[trigger] b2[y]) by {
            assert(b2[x] == b[x + 1] && b2[y] == b[y + 1]);
        }
        assert forall|x: int, y: int| 0 <= x < b2.len() && 0 <= y < b2.len() && x != y implies (#[trigger] b2[x]).stamp.node != (#[trigger] b2[y]).stamp.node by {
            assert(b2[x] == b[x + 1] && b2[y] == b[y + 1]);
        }
        assert forall|e: PendingNode| a2.contains(e) <==> b2.contains(e) by {
            if a2.contains(e) {
                let x = choose|x: int| 0 <= x < a2.len() && a2[x] == e;
                assert(a[x + 1] == e);
                assert(a[0].stamp.node != e.stamp.node);
                assert(b.contains(e));
                let y = choose|y: int| 0 <= y < b.len() && b[y] == e;
                assert(y != 0);
                assert(b2[y - 1] == e);
            }
            if b2.contains(e) {
                let y = choose|y: int| 0 <= y < b2.len() && b2[y] == e;
                assert(b[y + 1] == e);
                assert(b[0].stamp.node != e.stamp.node);
                assert(a.contains(e));
                let x = choose|x: int| 0 <= x < a.len() && a[x] == e;
                assert(x != 0);
                assert(a2[x - 1] == e);
            }
        }
        law_due_order_is_determined(a2, b2);
        assert(a =~= seq![a[0]] + a2);
        assert(b =~= seq![b[0]] + b2);
    }
}

/// Law: after scheduling, the node's only pending callback is the one just
/// scheduled, so rescheduling never accumulates entries.
pub proof fn law_schedule_keeps_one_entry_per_node(before: Seq<PendingNode>, after: Seq<PendingNode>, stamp: WorkStamp, deadline: u64)
    requires
        pending_wf(after),
        forall|e: PendingNode| after.contains(e) <==> (e == (PendingNode { deadline, stamp })
            || (before.contains(e) && e.stamp.node != stamp.node)),
    ensures
        forall|i: int| 0 <= i < after.len() && (#[trigger] after[i]).stamp.node == stamp.node ==> after[i] == (PendingNode { deadline, stamp }),
        exists|i: int| 0 <= i < after.len() && #[trigger] after[i] == (PendingNode { deadline, stamp }),
{
    assert forall|i: int| 0 <= i < after.len() && (#[trigger] after[i]).stamp.node == stamp.node implies after[i] == (PendingNode { deadline, stamp }) by {
        assert(after.contains(after[i]));
    }
    assert(after.contains(PendingNode { deadline, stamp }));
}

/// Law: scheduling a node that already has a pending callback keeps the
/// number of stored callbacks; scheduling a new node adds exactly one. So
/// storage never exceeds the number of distinct nodes, however often a node
/// is rescheduled.
pub proof fn law_rescheduling_keeps_storage_bounded(before: Seq<PendingNode>, after: Seq<PendingNode>, stamp: WorkStamp, deadline: u64)
    requires
        pending_wf(before),
        pending_wf(after),
        forall|e: PendingNode| after.contains(e) <==> (e == (PendingNode { deadline, stamp })
            || (before.contains(e) && e.stamp.node != stamp.node)),
    ensures
        (exists|i: int| 0 <= i < before.len() && (#[trigger] before[i]).stamp.node == stamp.node) ==> after.len() == before.len(),
        !(exists|i: int| 0 <= i < before.len() && (#[trigger] before[i]).stamp.node == stamp.node) ==> after.len() == before.len() + 1,
{
    let new_e = PendingNode { deadline, stamp };
    assert(before.no_duplicates()) by {
        assert forall|i: int, j: int| 0 <= i < before.len() && 0 <= j < before.len() && i != j implies before[i] != before[j] by {
            assert(before[i].stamp.node != before[j].stamp.node);
        }
    }
    assert(after.no_duplicates()) by {
        assert forall|i: int, j: int| 0 <= i < after.len() && 0 <= j < after.len() && i != j implies after[i] != after[j] by {
            assert(after[i].stamp.node != after[j].stamp.node);
        }
    }
    before.unique_seq_to_set();
    after.unique_seq_to_set();
    let bs = before.to_set();
    let a_s = after.to_set();
    if exists|i: int| 0 <= i < before.len() && (#[trigger] before[i]).stamp.node == stamp.node {
        let i = choose|i: int| 0 <= i < before.len() && (#[trigger] before[i]).stamp.node == stamp.node;
        let old_e = before[i];
        assert(bs.contains(old_e));
        assert(a_s =~= bs.remove(old_e).insert(new_e)) by {
            assert forall|e: PendingNode| a_s.contains(e) <==> bs.remove(old_e).insert(new_e).contains(e) by {
                if before.contains(e) && e.stamp.node == stamp.node {
                    let j = choose|j: int| 0 <= j < before.len() && before[j] == e;
                    if j != i {
                        assert(before[j].stamp.node != before[i].stamp.node);
                    }
                }
            }
        }
        assert(!bs.remove(old_e).contains(new_e)) by {
            if bs.remove(old_e).contains(new_e) {
                let j = choose|j: int| 0 <= j < before.len() && before[j] == new_e;
                assert(j != i);
                assert(before[j].stamp.node != before[i].stamp.node);
            }
        }
        vstd::set::axiom_set_remove_len(bs, old_e);
        vstd::set::axiom_set_insert_len(bs.remove(old_e), new_e);
    } else {
        assert(a_s =~= bs.insert(new_e));
        assert(!bs.contains(new_e));
        vstd::set::axiom_set_insert_len(bs, new_e);
    }
}

} // verus!
