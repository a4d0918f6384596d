//! Cancellation bookkeeping: which spawned children are still running and
//! must be signalled when the user interrupts, and whether an interrupt
//! happened. Sending the signals is I/O and happens outside this library.
use vstd::prelude::*;

verus! {

/// The children currently running, and whether cancellation was asked for.
#[derive(Debug)]
pub struct CancelRegistry {
    pids: Vec<u32>,
    cancelled: bool,
}

pub struct CancelRegistryView {
    pub pids: Seq<u32>,
    pub cancelled: bool,
}

impl View for CancelRegistry {
    type V = CancelRegistryView;

    closed spec fn view(&self) -> CancelRegistryView {
        CancelRegistryView { pids: self.pids@, cancelled: self.cancelled }
    }
}

pub open spec fn other_than(pid: u32) -> spec_fn(u32) -> bool {
    |p: u32| p != pid
}

/// `pids` without any occurrence of `pid`.
pub open spec fn without(pids: Seq<u32>, pid: u32) -> Seq<u32> {
    pids.filter(other_than(pid))
}

impl CancelRegistry {
    /// Nothing registered, nothing cancelled.
    pub fn new() -> (r: Self)
        ensures
            r@.pids == Seq::<u32>::empty(),
            !r@.cancelled,
    {
        CancelRegistry { pids: Vec::new(), cancelled: false }
    }

    /// Registers a running child.
    pub fn register(&mut self, pid: u32)
        ensures
            final(self)@.pids == old(self)@.pids.push(pid),
            final(self)@.cancelled == old(self)@.cancelled,
    {
        self.pids.push(pid);
    }

    /// Forgets a child that finished.
    pub fn unregister(&mut self, pid: u32)
        ensures
            final(self)@.pids == without(old(self)@.pids, pid),
            final(self)@.cancelled == old(self)@.cancelled,
    {
        let ghost old_pids = self.pids@;
        let mut kept: Vec<u32> = Vec::new();
        let mut i: usize = 0;
        assert(kept@ =~= old_pids.take(0).filter(other_than(pid))) by {
            reveal(Seq::filter);
        }
        while i < self.pids.len()
            invariant
                0 <= i <= self.pids@.len(),
                self.pids@ == old_pids,
                kept@ == old_pids.take(i as int).filter(other_than(pid)),
            decreases self.pids@.len() - i,
        {
            proof {
                assert(old_pids.take(i + 1) =~= old_pids.take(i as int).push(old_pids[i as int]));
                old_pids.take(i as int).lemma_filter_push(old_pids[i as int], other_than(pid));
            }
            if self.pids[i] != pid {
                kept.push(self.pids[i]);
            }
            i += 1;
        }
        assert(old_pids.take(i as int) =~= old_pids);
        self.pids = kept;
    }

    /// Marks the session cancelled and gives the children to signal: every
    /// one still registered.
    pub fn cancel_all(&mut self) -> (r: Vec<u32>)
        ensures
            r@ == old(self)@.pids,
            final(self)@.pids == old(self)@.pids,
            final(self)@.cancelled,
    {
        self.cancelled = true;
        self.pids.clone()
    }

    pub fn is_cancelled(&self) -> (r: bool)
        ensures
            r == self@.cancelled,
    {
        self.cancelled
    }

    /// Clears the cancelled mark; registered children stay registered.
    pub fn reset(&mut self)
        ensures
            final(self)@.pids == old(self)@.pids,
            !final(self)@.cancelled,
    {
        self.cancelled = false;
    }
}

/// A child registered and not yet unregistered is signalled on
/// cancellation; one that was unregistered is not.
pub proof fn law_cancel_signals_exactly_the_running(pids: Seq<u32>, pid: u32)
    ensures
        pids.push(pid).contains(pid),
        !without(pids, pid).contains(pid),
{
    assert(pids.push(pid)[pids.len() as int] == pid);
    pids.filter_lemma(other_than(pid));
}

} // verus!
