use xact::ast::{DependencyClause, ReferenceKind, Span, SuccessCondition};
use xact::session::{Session, SessionOutcome};

#[test]
fn their_rejected_then_accepted_after_identity() {
    let mut session = Session::new();
    assert!(matches!(session.submit("£ SEE THEIR ~/shared"), SessionOutcome::Rejected(_)));
    assert!(matches!(session.submit("£ THEY are \"alice,bob\""), SessionOutcome::Accepted(_)));
    assert!(matches!(session.submit("£ SEE THEIR ~/shared"), SessionOutcome::Accepted(_)));
}

#[test]
fn that_resolves_to_previously_established_object() {
    let mut session = Session::new();
    assert!(matches!(session.submit("£ SEE MY ~/project/README.md"), SessionOutcome::Accepted(_)));
    assert!(matches!(session.submit("£ EDIT THAT"), SessionOutcome::Accepted(_)));
}

#[test]
fn that_rejected_with_no_prior_result() {
    let mut session = Session::new();
    assert!(matches!(session.submit("£ EDIT THAT"), SessionOutcome::Rejected(_)));
}

#[test]
fn incomplete_draft_is_not_accepted() {
    let mut session = Session::new();
    assert!(matches!(session.submit("£ COPY MY"), SessionOutcome::Incomplete(_)));
}

#[test]
fn policy_statement_accepted_and_tracked_across_session() {
    let mut session = Session::new();
    assert!(matches!(session.submit("! SAVE 20%RAM 30%CPU"), SessionOutcome::PolicyAccepted(_)));
    assert!(matches!(session.submit("£ RUN 'chrome'"), SessionOutcome::Accepted(_)));
}

#[test]
fn conflicting_policy_statements_rejected() {
    let mut session = Session::new();
    assert!(matches!(session.submit("! CONCURRENTLY"), SessionOutcome::PolicyAccepted(_)));
    assert!(matches!(session.submit("! CONSECUTIVELY"), SessionOutcome::Rejected(_)));
}

#[test]
fn completion_drops_schedule_operators_once_established() {
    let mut session = Session::new();
    session.submit("! CONCURRENTLY");
    let suggestions = session.complete("!");
    assert!(!suggestions.contains(&"CONCURRENTLY".to_string()));
    assert!(!suggestions.contains(&"CONSECUTIVELY".to_string()));
    assert!(suggestions.contains(&"WITH".to_string()));
}

#[test]
fn agent_block_accepted_or_rejected_by_its_operands() {
    let mut session = Session::new();
    assert!(matches!(
        session.submit("@ TELL 'm' POPULATING THAT \"go\""),
        SessionOutcome::Rejected(_)
    ));
    assert!(matches!(session.submit("£ SEE MY ~/x"), SessionOutcome::Accepted(_)));
    assert!(matches!(
        session.submit("@ TELL 'm' POPULATING THAT \"go\""),
        SessionOutcome::AgentAccepted(_)
    ));
}

#[test]
fn budget_and_schedule_follow_the_accepted_policy() {
    let mut session = Session::new();
    assert_eq!(session.schedule(), None);
    session.submit("! SAVE 20%RAM 30%CPU");
    session.submit("! CONCURRENTLY");
    let budget = session.resource_budget();
    assert_eq!(budget.ram_percent, Some(80));
    assert_eq!(budget.cpu_percent, Some(70));
    assert_eq!(session.schedule(), Some(xact::ast::PolicyOperator::Concurrently));
}

#[test]
fn dependencies_follow_the_most_recent_result() {
    let mut session = Session::new();
    let succeeds = DependencyClause {
        reference: ReferenceKind::That,
        reference_span: Span::default(),
        condition: SuccessCondition::Succeeds,
        condition_span: Span::default(),
    };
    let fails = DependencyClause { condition: SuccessCondition::Fails, ..succeeds };
    assert!(!session.dependency_satisfied(&succeeds));
    assert!(!session.dependency_satisfied(&fails));
    session.record_outcome(true);
    assert!(session.dependency_satisfied(&succeeds));
    assert!(!session.dependency_satisfied(&fails));
    session.record_outcome(false);
    assert!(!session.dependency_satisfied(&succeeds));
    assert!(session.dependency_satisfied(&fails));
}

#[test]
fn accepted_command_becomes_the_reference_target() {
    let mut session = Session::new();
    session.submit("£ COPY MY ~/a to OUR ~/b");
    match session.references().resolve(ReferenceKind::This) {
        Some(xact::reference::ResolvedObject::Path(p)) => assert_eq!(p, "~/b"),
        other => panic!("expected the destination, got {other:?}"),
    }
}

#[test]
fn the_session_policy_follows_every_statement_typed_so_far() {
    let mut session = Session::new();
    assert!(matches!(session.submit("! WITH network"), SessionOutcome::PolicyAccepted(_)));
    assert!(matches!(session.submit("£ SEE MY ~/x"), SessionOutcome::Accepted(_)));
    assert!(matches!(session.submit("! WITHOUT NETWORK"), SessionOutcome::Rejected(_)));
    assert!(matches!(session.submit("! CONCURRENTLY"), SessionOutcome::PolicyAccepted(_)));
    assert!(!session.complete("! C").contains(&"CONCURRENTLY".to_string()));
    assert!(!session.complete("! C").contains(&"CONSECUTIVELY".to_string()));
    assert!(matches!(session.submit("! DODGE network"), SessionOutcome::Rejected(_)));
}

#[test]
fn references_are_accepted_only_after_an_accepted_command() {
    let mut session = Session::new();
    assert!(matches!(session.submit("£ SEE THIS"), SessionOutcome::Rejected(_)));
    assert!(matches!(session.submit("! WITH network"), SessionOutcome::PolicyAccepted(_)));
    assert!(matches!(session.submit("£ SEE THAT"), SessionOutcome::Rejected(_)));
    assert!(matches!(session.submit("£ THEY are \"alice\""), SessionOutcome::Accepted(_)));
    assert!(matches!(session.submit("£ SEE THIS"), SessionOutcome::Rejected(_)));
    assert!(matches!(session.submit("£ CREATE MY ~/a"), SessionOutcome::Accepted(_)));
    assert!(matches!(session.submit("£ SEE THIS"), SessionOutcome::Accepted(_)));
}
