//! Which real outcome a `WHEN THIS/THAT SUCCEEDS`/`FAILS` clause waits on.
//!
//! Under `! CONCURRENTLY` an accepted command runs as an independent
//! branch and is not waited on, so the most recent thing that ran may
//! still be running when a `WHEN` clause needs its outcome. The tracker
//! numbers the branches, remembers which ones are in flight and which one
//! is the most recent, and says when a finished branch's outcome is the
//! one the session must record. Running and joining the branches happens
//! outside this library.
use vstd::prelude::*;

use crate::ast::{Command, CommandView, DependencyClause, PolicyOperator};
use crate::session::{dependency_holds, Session, SessionView};

verus! {

/// What the outcome of `THIS`/`THAT` currently refers to.
#[derive(Debug, Clone, Copy, PartialEq, Eq)]
pub enum LastResult {
    /// Already recorded in the session, or nothing has run yet.
    Resolved,
    /// Still running, as the branch with this id.
    Pending(u64),
}

/// The branches in flight, the id the next one gets, and which outcome
/// `THIS`/`THAT` refers to.
#[derive(Debug)]
pub struct BranchTracker {
    next_id: u64,
    last: LastResult,
    in_flight: Vec<u64>,
}

pub struct BranchTrackerView {
    pub next_id: nat,
    pub last: LastResult,
    pub in_flight: Set<u64>,
}

impl View for BranchTracker {
    type V = BranchTrackerView;

    closed spec fn view(&self) -> BranchTrackerView {
        BranchTrackerView { next_id: self.next_id as nat, last: self.last, in_flight: self.in_flight@.to_set() }
    }
}

/// Every branch in flight got an id below the next one, and a pending
/// most recent outcome belongs to a branch still in flight.
pub open spec fn tracker_wf(t: BranchTrackerView) -> bool {
    &&& forall|id: u64| t.in_flight.contains(id) ==> id < t.next_id
    &&& t.last matches LastResult::Pending(id) ==> t.in_flight.contains(id)
}

spec fn increasing(s: Seq<u64>) -> bool {
    forall|i: int, j: int| 0 <= i < j < s.len() ==> s[i] < s[j]
}

/// The tracker after a branch was started with the next id.
pub open spec fn start_spec(t: BranchTrackerView) -> BranchTrackerView {
    BranchTrackerView {
        next_id: t.next_id + 1,
        last: LastResult::Pending(t.next_id as u64),
        in_flight: t.in_flight.insert(t.next_id as u64),
    }
}

/// Whether the outcome of the branch `id` is the one `THIS`/`THAT`
/// refers to, and so the one the session records when it arrives.
pub open spec fn is_latest(t: BranchTrackerView, id: u64) -> bool {
    t.last == LastResult::Pending(id)
}

/// The tracker after the branch `id` finished.
pub open spec fn finished_spec(t: BranchTrackerView, id: u64) -> BranchTrackerView {
    BranchTrackerView {
        next_id: t.next_id,
        last: if is_latest(t, id) {
            LastResult::Resolved
        } else {
            t.last
        },
        in_flight: t.in_flight.remove(id),
    }
}

spec fn rep_ok(in_flight: Seq<u64>, next_id: u64, last: LastResult) -> bool {
    &&& increasing(in_flight)
    &&& forall|i: int| 0 <= i < in_flight.len() ==> in_flight[i] < next_id
    &&& last matches LastResult::Pending(id) ==> in_flight.contains(id)
}

proof fn lemma_rep_ok(in_flight: Seq<u64>, next_id: u64, last: LastResult)
    requires
        rep_ok(in_flight, next_id, last),
    ensures
        tracker_wf(BranchTrackerView { next_id: next_id as nat, last, in_flight: in_flight.to_set() }),
{
    assert forall|id: u64| in_flight.to_set().contains(id) implies id < next_id by {
        let i = choose|i: int| 0 <= i < in_flight.len() && in_flight[i] == id;
    }
}

impl BranchTracker {
    #[verifier::type_invariant]
    spec fn inv(&self) -> bool {
        rep_ok(self.in_flight@, self.next_id, self.last)
    }

    /// Nothing has run yet; the first branch gets id 0.
    pub fn new() -> (r: Self)
        ensures
            r@.next_id == 0,
            r@.last == LastResult::Resolved,
            r@.in_flight == Set::<u64>::empty(),
            tracker_wf(r@),
    {
        let r = BranchTracker { next_id: 0, last: LastResult::Resolved, in_flight: Vec::new() };
        assert(r.in_flight@.to_set() =~= Set::<u64>::empty());
        r
    }

    /// What `THIS`/`THAT` currently refers to.
    pub fn last(&self) -> (r: LastResult)
        ensures
            r == self@.last,
    {
        self.last
    }

    /// Whether another branch can still be given an id of its own.
    pub fn can_start(&self) -> (r: bool)
        ensures
            r == (self@.next_id < u64::MAX),
    {
        self.next_id < u64::MAX
    }

    /// Starts a new branch: it gets the next id, is in flight, and is now
    /// what `THIS`/`THAT` refers to.
    pub fn start(&mut self) -> (id: u64)
        requires
            old(self)@.next_id < u64::MAX,
        ensures
            id == old(self)@.next_id,
            !old(self)@.in_flight.contains(id),
            final(self)@ == start_spec(old(self)@),
            tracker_wf(final(self)@),
    {
        proof {
            use_type_invariant(&*self);
            lemma_rep_ok(self.in_flight@, self.next_id, self.last);
        }
        let id = self.next_id;
        let mut in_flight = self.in_flight.clone();
        let ghost before = in_flight@;
        assert(before =~= self.in_flight@);
        in_flight.push(id);
        proof {
            assert forall|x: u64| in_flight@.to_set().contains(x) <==> before.to_set().insert(id).contains(x) by {
                if in_flight@.contains(x) && x != id {
                    let k = choose|k: int| 0 <= k < in_flight@.len() && in_flight@[k] == x;
                    assert(k < before.len());
                    assert(before[k] == x);
                }
                if before.contains(x) {
                    let k = choose|k: int| 0 <= k < before.len() && before[k] == x;
                    assert(in_flight@[k] == x);
                }
                if x == id {
                    assert(in_flight@[before.len() as int] == id);
                }
            }
            assert(in_flight@.to_set() =~= before.to_set().insert(id));
            assert forall|i: int| 0 <= i < in_flight@.len() implies in_flight@[i] < id + 1 by {
                if i < before.len() {
                    assert(in_flight@[i] == before[i]);
                }
            }
            assert(in_flight@[before.len() as int] == id);
            assert(in_flight@.contains(id));
        }
        *self = BranchTracker { next_id: id + 1, last: LastResult::Pending(id), in_flight };
        proof {
            use_type_invariant(&*self);
            lemma_rep_ok(self.in_flight@, self.next_id, self.last);
        }
        id
    }

    /// The most recent outcome is settled without a branch: a command ran
    /// and was waited on, or could not even be submitted.
    pub fn settle(&mut self)
        ensures
            final(self)@ == (BranchTrackerView { last: LastResult::Resolved, ..old(self)@ }),
            tracker_wf(final(self)@),
    {
        proof {
            use_type_invariant(&*self);
        }
        self.last = LastResult::Resolved;
        proof {
            use_type_invariant(&*self);
            lemma_rep_ok(self.in_flight@, self.next_id, self.last);
        }
    }

    /// The branch `id` finished. Returns whether its outcome is the one
    /// `THIS`/`THAT` refers to, which the session then records.
    pub fn finished(&mut self, id: u64) -> (latest: bool)
        ensures
            latest == is_latest(old(self)@, id),
            final(self)@ == finished_spec(old(self)@, id),
            tracker_wf(final(self)@),
    {
        proof {
            use_type_invariant(&*self);
        }
        let was_latest = match self.last {
            LastResult::Pending(p) => p == id,
            LastResult::Resolved => false,
        };
        let mut in_flight = self.in_flight.clone();
        let ghost before = in_flight@;
        assert(before =~= self.in_flight@);
        let mut i: usize = 0;
        while i < in_flight.len() && in_flight[i] != id
            invariant
                in_flight@ == before,
                0 <= i <= in_flight@.len(),
                forall|j: int| 0 <= j < i ==> in_flight@[j] != id,
            decreases in_flight@.len() - i,
        {
            i += 1;
        }
        if i < in_flight.len() {
            in_flight.remove(i);
            proof {
                let after = in_flight@;
                assert(after =~= before.remove(i as int));
                assert forall|x: u64| after.to_set().contains(x) <==> before.to_set().remove(id).contains(x) by {
                    if after.contains(x) {
                        let k = choose|k: int| 0 <= k < after.len() && after[k] == x;
                        if k < i {
                            assert(before[k] == x);
                        } else {
                            assert(before[k + 1] == x);
                        }
                    }
                    if before.contains(x) && x != id {
                        let k = choose|k: int| 0 <= k < before.len() && before[k] == x;
                        if k < i {
                            assert(after[k] == x);
                        } else {
                            assert(k != i);
                            assert(after[k - 1] == x);
                        }
                    }
                }
                assert(after.to_set() =~= before.to_set().remove(id));
                assert(increasing(after)) by {
                    assert forall|a: int, b: int| 0 <= a < b < after.len() implies after[a] < after[b] by {
                        let a2 = if a < i { a } else { a + 1 };
                        let b2 = if b < i { b } else { b + 1 };
                        assert(after[a] == before[a2]);
                        assert(after[b] == before[b2]);
                    }
                }
                assert forall|k: int| 0 <= k < after.len() implies after[k] < self.next_id by {
                    if k < i {
                        assert(after[k] == before[k]);
                    } else {
                        assert(after[k] == before[k + 1]);
                    }
                }
            }
        } else {
            proof {
                assert(!before.contains(id));
                assert(before.to_set() =~= before.to_set().remove(id));
            }
        }
        let last = if was_latest {
            LastResult::Resolved
        } else {
            self.last
        };
        proof {
            if let LastResult::Pending(p) = last {
                assert(p != id);
                assert(before.contains(p));
                let k = choose|k: int| 0 <= k < before.len() && before[k] == p;
                assert(in_flight@.to_set().contains(p));
            }
        }
        *self = BranchTracker { next_id: self.next_id, last, in_flight };
        proof {
            use_type_invariant(&*self);
            lemma_rep_ok(self.in_flight@, self.next_id, self.last);
        }
        was_latest
    }
}

/// What the session does next with an accepted command.
#[derive(Debug, Clone, Copy, PartialEq, Eq)]
pub enum NextStep {
    /// Its `WHEN` clause needs the outcome of this branch, still running:
    /// wait for it, record its outcome, and decide again.
    WaitFor(u64),
    /// Its `WHEN` clause is not satisfied by the most recent outcome.
    Skip,
    /// Run it: as an independent branch under `! CONCURRENTLY`, else
    /// waited on before the next line is read.
    Run { concurrent: bool },
}

/// The `WHEN` clause of a command, if it has one.
pub open spec fn dependency_of(c: CommandView) -> Option<DependencyClause> {
    match c {
        CommandView::Imperative(cmd) => cmd.dependency,
        CommandView::Identity(_) => None,
    }
}

/// A command without a `WHEN` clause runs. One with a clause first waits
/// for the branch `THIS`/`THAT` refers to if it is still running, then
/// runs only if the recorded outcome satisfies the clause.
pub open spec fn next_step_spec(t: BranchTrackerView, s: SessionView, c: CommandView) -> NextStep {
    let run = NextStep::Run { concurrent: s.policy.schedule == Some(PolicyOperator::Concurrently) };
    match dependency_of(c) {
        None => run,
        Some(dep) => match t.last {
            LastResult::Pending(id) => NextStep::WaitFor(id),
            LastResult::Resolved => if dependency_holds(s.last_success, dep) {
                run
            } else {
                NextStep::Skip
            },
        },
    }
}

/// Decides what happens to the accepted `command`.
pub fn next_step(tracker: &BranchTracker, session: &Session, command: &Command) -> (r: NextStep)
    ensures
        r == next_step_spec(tracker@, session@, command@),
{
    let concurrent = match session.schedule() {
        Some(PolicyOperator::Concurrently) => true,
        _ => false,
    };
    let dependency = match command {
        Command::Imperative(cmd) => cmd.dependency,
        Command::Identity(_) => None,
    };
    match dependency {
        None => NextStep::Run { concurrent },
        Some(dep) => match tracker.last() {
            LastResult::Pending(id) => NextStep::WaitFor(id),
            LastResult::Resolved => if session.dependency_satisfied(&dep) {
                NextStep::Run { concurrent }
            } else {
                NextStep::Skip
            },
        },
    }
}


/// A `WHEN` clause waits on the branch started most recently: finishing
/// any other branch leaves that one the latest, and when it finishes its
/// outcome is the one recorded.
pub proof fn law_when_waits_on_the_latest_branch(t: BranchTrackerView, other: u64)
    requires
        tracker_wf(t),
        t.next_id < u64::MAX,
        other != t.next_id,
    ensures
        is_latest(finished_spec(start_spec(t), other), t.next_id as u64),
        !is_latest(start_spec(t), other),
        finished_spec(finished_spec(start_spec(t), other), t.next_id as u64).last == LastResult::Resolved,
{
}

/// Branch ids are never reused: a newly started branch's id is not that
/// of any branch still in flight.
pub proof fn law_branch_ids_are_fresh(t: BranchTrackerView)
    requires
        tracker_wf(t),
        t.next_id < u64::MAX,
    ensures
        !t.in_flight.contains(t.next_id as u64),
        tracker_wf(start_spec(t)),
{
}

} // verus!
