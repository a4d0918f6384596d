use xact::ast::{Command, IdentityDeclaration, ImperativeCommand, Operand, OwnershipKind, ReferenceKind, Span, Verb};
use xact::planner::{expand_tilde, plan, ExecutionPlan, PlanOutcome};
use xact::reference::{ReferenceContext, ResolvedObject};

fn create_command(operand: Operand) -> Command {
    Command::Imperative(ImperativeCommand {
        verb: Verb::Create,
        verb_span: Span::default(),
        operand: Some(operand),
        destination: None,
        dependency: None,
    })
}

#[test]
fn create_with_owned_path_expands_tilde() {
    let references = ReferenceContext::new();
    let cmd = create_command(Operand::Owned {
        kind: OwnershipKind::My,
        path: "~/project/src/main.rs".into(),
        span: Span::default(),
    });
    match plan(&cmd, &references, Some("/home/testuser")) {
        PlanOutcome::Plan(ExecutionPlan::Bank { path }) => {
            assert_eq!(path, "/home/testuser/project/src/main.rs");
        }
        other => panic!("expected a bank plan, got {other:?}"),
    }
}

#[test]
fn create_with_absolute_path_is_unchanged() {
    let references = ReferenceContext::new();
    let cmd = create_command(Operand::Owned {
        kind: OwnershipKind::My,
        path: "/tmp/project/".into(),
        span: Span::default(),
    });
    match plan(&cmd, &references, Some("/home/testuser")) {
        PlanOutcome::Plan(ExecutionPlan::Bank { path }) => {
            assert_eq!(path, "/tmp/project/");
        }
        other => panic!("expected a bank plan, got {other:?}"),
    }
}

#[test]
fn create_with_reference_resolves_from_context() {
    let mut references = ReferenceContext::new();
    references.record(ResolvedObject::Path("/tmp/from-reference".into()));
    let cmd = create_command(Operand::Reference { kind: ReferenceKind::That, span: Span::default() });
    match plan(&cmd, &references, None) {
        PlanOutcome::Plan(ExecutionPlan::Bank { path }) => {
            assert_eq!(path, "/tmp/from-reference");
        }
        other => panic!("expected a bank plan, got {other:?}"),
    }
}

#[test]
fn other_verbs_are_unsupported_not_silently_dropped() {
    let references = ReferenceContext::new();
    let cmd = Command::Imperative(ImperativeCommand {
        verb: Verb::Run,
        verb_span: Span::default(),
        operand: Some(Operand::StringArg { value: "chrome".into(), span: Span::default() }),
        destination: None,
        dependency: None,
    });
    match plan(&cmd, &references, None) {
        PlanOutcome::Unsupported(reason) => assert!(reason.contains("RUN")),
        other => panic!("expected unsupported, got {other:?}"),
    }
}

#[test]
fn identity_declarations_have_no_plan() {
    let references = ReferenceContext::new();
    let cmd = Command::Identity(IdentityDeclaration { members: vec!["a".into()], span: Span::default() });
    assert_eq!(
        plan(&cmd, &references, None),
        PlanOutcome::Unsupported("THEY declarations establish identity but have no execution plan.".into())
    );
}

#[test]
fn unresolved_reference_has_no_plan() {
    let references = ReferenceContext::new();
    let cmd = create_command(Operand::Reference { kind: ReferenceKind::This, span: Span::default() });
    assert_eq!(
        plan(&cmd, &references, None),
        PlanOutcome::Unsupported("CREATE's target did not resolve to a path.".into())
    );
}

#[test]
fn tilde_expansion_cases() {
    assert_eq!(expand_tilde("~", Some("/home/u")), "/home/u");
    assert_eq!(expand_tilde("~/x", Some("/home/u/")), "/home/u/x");
    assert_eq!(expand_tilde("~//abs", Some("/home/u")), "/abs");
    assert_eq!(expand_tilde("~/x", None), "~/x");
    assert_eq!(expand_tilde("~x", Some("/home/u")), "~x");
    assert_eq!(expand_tilde("~/", Some("/home/u")), "/home/u/");
}
