use xact::branches::{next_step, BranchTracker, LastResult, NextStep};

#[test]
fn a_started_branch_is_what_this_and_that_refer_to() {
    let mut tracker = BranchTracker::new();
    assert_eq!(tracker.last(), LastResult::Resolved);
    assert!(tracker.can_start());
    assert_eq!(tracker.start(), 0);
    assert_eq!(tracker.last(), LastResult::Pending(0));
    assert_eq!(tracker.start(), 1);
    assert_eq!(tracker.last(), LastResult::Pending(1));
}

#[test]
fn only_the_latest_branch_outcome_is_recorded() {
    let mut tracker = BranchTracker::new();
    let first = tracker.start();
    let second = tracker.start();
    assert!(!tracker.finished(first));
    assert_eq!(tracker.last(), LastResult::Pending(second));
    assert!(tracker.finished(second));
    assert_eq!(tracker.last(), LastResult::Resolved);
}

#[test]
fn a_settled_outcome_stops_waiting_on_earlier_branches() {
    let mut tracker = BranchTracker::new();
    let id = tracker.start();
    tracker.settle();
    assert_eq!(tracker.last(), LastResult::Resolved);
    assert!(!tracker.finished(id));
    assert_eq!(tracker.start(), 1);
}

fn accepted(session: &mut xact::session::Session, input: &str) -> xact::ast::Command {
    match session.submit(input) {
        xact::session::SessionOutcome::Accepted(command) => command,
        other => panic!("expected {input} to be accepted, got {other:?}"),
    }
}

#[test]
fn when_clauses_wait_then_run_or_skip() {
    let mut session = xact::session::Session::new();
    let mut tracker = BranchTracker::new();
    let create = accepted(&mut session, "£ CREATE MY ~/a");
    assert_eq!(next_step(&tracker, &session, &create), NextStep::Run { concurrent: false });
    let id = tracker.start();
    let gated = accepted(&mut session, "£ RUN 'x' WHEN THAT SUCCEEDS");
    assert_eq!(next_step(&tracker, &session, &gated), NextStep::WaitFor(id));
    assert!(tracker.finished(id));
    session.record_outcome(false);
    assert_eq!(next_step(&tracker, &session, &gated), NextStep::Skip);
    session.record_outcome(true);
    assert_eq!(next_step(&tracker, &session, &gated), NextStep::Run { concurrent: false });
    let _ = session.submit("! CONCURRENTLY");
    assert_eq!(next_step(&tracker, &session, &gated), NextStep::Run { concurrent: true });
    assert_eq!(next_step(&tracker, &session, &create), NextStep::Run { concurrent: true });
}
