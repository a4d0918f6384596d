use xact::ast::{Command, ImperativeCommand, Operand, OwnershipKind, ReferenceKind, Span, Verb};
use xact::reference::{ReferenceContext, ResolvedObject};
use xact::semantic::{validate, IdentityContext};

fn imperative(operand: Option<Operand>) -> Command {
    Command::Imperative(ImperativeCommand {
        verb: Verb::See,
        verb_span: Span::default(),
        operand,
        destination: None,
        dependency: None,
    })
}

#[test]
fn their_rejected_without_identity() {
    let identity = IdentityContext::new();
    let references = ReferenceContext::new();
    let cmd = imperative(Some(Operand::Owned {
        kind: OwnershipKind::Their,
        path: "~/x".into(),
        span: Span::default(),
    }));
    let result = validate(cmd, &identity, &references);
    assert!(result.is_err());
}

#[test]
fn their_accepted_after_identity_established() {
    let mut identity = IdentityContext::new();
    identity.set(vec!["alice".into()]);
    let references = ReferenceContext::new();
    let cmd = imperative(Some(Operand::Owned {
        kind: OwnershipKind::Their,
        path: "~/x".into(),
        span: Span::default(),
    }));
    assert!(validate(cmd, &identity, &references).is_ok());
}

#[test]
fn unresolved_that_rejected() {
    let identity = IdentityContext::new();
    let references = ReferenceContext::new();
    let cmd = imperative(Some(Operand::Reference { kind: ReferenceKind::That, span: Span::default() }));
    assert!(validate(cmd, &identity, &references).is_err());
}

#[test]
fn resolved_that_accepted_and_records_establishment() {
    let identity = IdentityContext::new();
    let mut references = ReferenceContext::new();
    references.record(ResolvedObject::Path("~/project/README.md".into()));
    let cmd = imperative(Some(Operand::Reference { kind: ReferenceKind::That, span: Span::default() }));
    let validated = validate(cmd, &identity, &references).expect("should validate");
    assert_eq!(validated.establishes, Some(ResolvedObject::Path("~/project/README.md".into())));
}

#[test]
fn every_unresolved_operand_gets_its_own_diagnostic() {
    let identity = IdentityContext::new();
    let references = ReferenceContext::new();
    let cmd = Command::Imperative(ImperativeCommand {
        verb: Verb::Copy,
        verb_span: Span::default(),
        operand: Some(Operand::Reference { kind: ReferenceKind::This, span: Span::new(2, 6) }),
        destination: Some(Operand::Owned { kind: OwnershipKind::Their, path: "x".into(), span: Span::new(10, 17) }),
        dependency: None,
    });
    let diagnostics = validate(cmd, &identity, &references).unwrap_err();
    assert_eq!(diagnostics.len(), 2);
    assert_eq!(diagnostics[0].message, "THIS does not refer to anything yet.");
    assert_eq!(diagnostics[0].span, Span::new(2, 6));
    assert!(diagnostics[1].message.starts_with("THEIR cannot be used"));
}

#[test]
fn string_operand_is_established_as_text() {
    let identity = IdentityContext::new();
    let references = ReferenceContext::new();
    let cmd = imperative(Some(Operand::StringArg { value: "hello".into(), span: Span::default() }));
    let validated = validate(cmd, &identity, &references).unwrap();
    assert_eq!(validated.establishes, Some(ResolvedObject::Text("hello".into())));
}

#[test]
fn identity_context_reports_its_members() {
    let mut identity = IdentityContext::new();
    assert!(!identity.established());
    identity.set(vec!["alice".into(), "bob".into()]);
    assert!(identity.established());
    assert_eq!(identity.members(), &["alice".to_string(), "bob".to_string()]);
}
