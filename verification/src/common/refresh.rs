//! Bookkeeping for a refresh running in the background: at most one runs at a
//! time, and polling hands back its result once, when it arrives.

use vstd::prelude::*;
use crate::text::owned;

verus! {

/// What the background job's channel held when it was polled.
pub enum Polled<T> {
    /// Nothing yet.
    Empty,
    /// The job finished with this result.
    Ready(Result<T, String>),
    /// The job went away without sending anything.
    Disconnected,
}

/// Whether a background refresh is running.
#[derive(Debug)]
pub struct Refresh {
    pub running: bool,
}

/// The message given when the job went away without a result.
pub open spec fn died_msg() -> Seq<char> {
    "refresh task died"@
}

/// One call on the bookkeeping: `trigger`, or `poll` with whether the
/// channel held something (a result, or word that the job went away).
pub enum RefreshOp {
    Trigger,
    Poll(bool),
}

/// Whether a refresh runs after `op`, given whether one ran before.
pub open spec fn refresh_step(running: bool, op: RefreshOp) -> bool {
    match op {
        RefreshOp::Trigger => true,
        RefreshOp::Poll(arrived) => running && !arrived,
    }
}

/// Whether a refresh runs after the calls `ops`, starting from `new`.
pub open spec fn running_after(ops: Seq<RefreshOp>) -> bool
    decreases ops.len(),
{
    if ops.len() == 0 {
        false
    } else {
        refresh_step(running_after(ops.drop_last()), ops.last())
    }
}

/// Whether the `j`-th call of `ops` is a poll that handed back a result.
pub open spec fn poll_delivered(ops: Seq<RefreshOp>, j: int) -> bool {
    &&& ops[j] matches RefreshOp::Poll(arrived)
    &&& arrived
    &&& running_after(ops.take(j))
}

/// After any sequence of calls from `new`, a refresh is in flight exactly
/// when some `trigger` came after the last poll that handed back a result.
pub proof fn lemma_in_flight_after(ops: Seq<RefreshOp>)
    ensures
        running_after(ops) <==> exists|i: int| {
            &&& 0 <= i < ops.len()
            &&& #[trigger] ops[i] is Trigger
            &&& forall|j: int| i < j < ops.len() ==> !poll_delivered(ops, j)
        },
    decreases ops.len(),
{
    if ops.len() > 0 {
        let d = ops.drop_last();
        let n = ops.len() - 1;
        lemma_in_flight_after(d);
        assert(ops.take(n) =~= d);
        assert forall|j: int| 0 <= j < n implies #[trigger] ops[j] == d[j] && ops.take(j) == d.take(j) by {
            assert(ops.take(j) =~= d.take(j));
        }
        if running_after(ops) {
            if ops.last() is Trigger {
                assert(ops[n] is Trigger);
            } else {
                let i = choose|i: int| 0 <= i < d.len() && #[trigger] d[i] is Trigger
                    && forall|j: int| i < j < d.len() ==> !poll_delivered(d, j);
                assert(ops[i] is Trigger);
                assert forall|j: int| i < j < ops.len() implies !poll_delivered(ops, j) by {
                    if j < n {
                        assert(!poll_delivered(d, j));
                    }
                }
            }
        } else {
            assert forall|i: int| 0 <= i < ops.len() && #[trigger] ops[i] is Trigger
                implies exists|j: int| i < j < ops.len() && poll_delivered(ops, j) by {
                if i == n {
                    assert(false);
                } else if running_after(d) {
                    assert(poll_delivered(ops, n));
                } else {
                    assert(d[i] is Trigger);
                    let j = choose|j: int| i < j < d.len() && poll_delivered(d, j);
                    assert(poll_delivered(ops, j));
                }
            }
        }
    }
}

impl Refresh {
    /// Nothing running yet.
    pub fn new() -> (r: Refresh)
        ensures
            !r.running,
            r.running == running_after(seq![]),
    {
        Refresh { running: false }
    }

    /// Start a refresh, unless one is already running. True when the caller
    /// should start the job now.
    pub fn trigger(&mut self) -> (start: bool)
        ensures
            start == !old(self).running,
            final(self).running,
            final(self).running == refresh_step(old(self).running, RefreshOp::Trigger),
    {
        if self.running {
            return false;
        }
        self.running = true;
        true
    }

    /// Whether a refresh is currently running.
    pub fn in_flight(&self) -> (r: bool)
        ensures
            r == self.running,
    {
        self.running
    }

    /// Take what the channel held: the job's result once it finished (or an
    /// error when the job went away), else nothing. A finished or vanished job
    /// is no longer running. With nothing running there is nothing to take.
    pub fn poll<T>(&mut self, p: Polled<T>) -> (r: Option<Result<T, String>>)
        ensures
            final(self).running == refresh_step(old(self).running, RefreshOp::Poll(!(p is Empty))),
            r is Some <==> (old(self).running && !(p is Empty)),
            !old(self).running ==> r is None && *final(self) == *old(self),
            old(self).running ==> match p {
                Polled::Empty => r is None && *final(self) == *old(self),
                Polled::Ready(v) => r == Some(v) && !final(self).running,
                Polled::Disconnected => (r matches Some(Err(e)) && e@ == died_msg()) && !final(self).running,
            },
    {
        if !self.running {
            return None;
        }
        match p {
            Polled::Empty => None,
            Polled::Ready(v) => {
                self.running = false;
                Some(v)
            },
            Polled::Disconnected => {
                self.running = false;
                Some(Err(owned("refresh task died")))
            },
        }
    }
}

} // verus!
