use xact::agent::validate;
use xact::ast::{AgentBlock, AgentClause, AgentVerb, Operand, OwnershipKind, ReferenceKind, Span};
use xact::reference::{ReferenceContext, ResolvedObject};
use xact::semantic::IdentityContext;

fn block_with_clauses(clauses: Vec<AgentClause>) -> AgentBlock {
    AgentBlock {
        verb: AgentVerb::Tell,
        verb_span: Span::default(),
        target: "GPT-5.6-luna".into(),
        target_span: Span::default(),
        clauses,
        instruction: "Review this project.".into(),
        instruction_span: Span::default(),
    }
}

#[test]
fn block_with_no_clauses_is_valid() {
    let identity = IdentityContext::new();
    let references = ReferenceContext::new();
    assert!(validate(block_with_clauses(vec![]), &identity, &references).is_ok());
}

#[test]
fn reading_their_rejected_without_identity() {
    let identity = IdentityContext::new();
    let references = ReferenceContext::new();
    let block = block_with_clauses(vec![AgentClause::Reading {
        operand: Operand::Owned { kind: OwnershipKind::Their, path: "~/shared".into(), span: Span::default() },
        span: Span::default(),
    }]);
    assert!(validate(block, &identity, &references).is_err());
}

#[test]
fn populating_that_resolves_against_reference_context() {
    let identity = IdentityContext::new();
    let mut references = ReferenceContext::new();
    references.record(ResolvedObject::Path("~/project/review".into()));
    let block = block_with_clauses(vec![AgentClause::Populating {
        operand: Operand::Reference { kind: ReferenceKind::That, span: Span::default() },
        span: Span::default(),
    }]);
    assert!(validate(block, &identity, &references).is_ok());
}

#[test]
fn populating_that_rejected_with_no_prior_result() {
    let identity = IdentityContext::new();
    let references = ReferenceContext::new();
    let block = block_with_clauses(vec![AgentClause::Populating {
        operand: Operand::Reference { kind: ReferenceKind::That, span: Span::default() },
        span: Span::default(),
    }]);
    assert!(validate(block, &identity, &references).is_err());
}

#[test]
fn be_and_think_clauses_need_no_validation() {
    let identity = IdentityContext::new();
    let references = ReferenceContext::new();
    let block = block_with_clauses(vec![
        AgentClause::Be { persona: "x".into(), span: Span::default() },
        AgentClause::Think { budget: 3, span: Span::default() },
    ]);
    let validated = validate(block, &identity, &references).unwrap();
    assert_eq!(validated.block.clauses.len(), 2);
}
