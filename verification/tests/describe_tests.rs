use xact::describe::{describe, describe_agent, describe_policy};
use xact::parser::{parse_line, ParseOutcome};
use xact::ast::Line;

fn line(input: &str) -> Line {
    match parse_line(input) {
        ParseOutcome::Complete(l) => l,
        other => panic!("expected a complete line, got {other:?}"),
    }
}

#[test]
fn describes_commands_with_destination_and_dependency() {
    match line("£ COPY THAT to OUR ~/backup WHEN THAT SUCCEEDS") {
        Line::Command(c) => assert_eq!(describe(&c), "COPY THAT to OUR ~/backup WHEN THAT SUCCEEDS"),
        other => panic!("{other:?}"),
    }
    match line("£ RUN 'ls -l'") {
        Line::Command(c) => assert_eq!(describe(&c), "RUN 'ls -l'"),
        other => panic!("{other:?}"),
    }
}

#[test]
fn describes_identity_declarations_as_a_list() {
    match line("£ THEY are \"alice,bob\"") {
        Line::Command(c) => assert_eq!(describe(&c), "THEY are [\"alice\", \"bob\"]"),
        other => panic!("{other:?}"),
    }
}

#[test]
fn describes_policy_statements() {
    match line("! SAVE 20%RAM 30%CPU") {
        Line::Policy(p) => assert_eq!(describe_policy(&p), "SAVE 20%RAM 30%CPU"),
        other => panic!("{other:?}"),
    }
    match line("! WITH network") {
        Line::Policy(p) => assert_eq!(describe_policy(&p), "WITH 'network'"),
        other => panic!("{other:?}"),
    }
    match line("! CONCURRENTLY") {
        Line::Policy(p) => assert_eq!(describe_policy(&p), "CONCURRENTLY"),
        other => panic!("{other:?}"),
    }
}

#[test]
fn describes_agent_blocks() {
    match line("@ TELL 'm' BE \"x\" READING MY ~/p THINK 8 \"go\"") {
        Line::Agent(b) => assert_eq!(describe_agent(&b), "TELL 'm' BE \"x\" READING MY ~/p THINK 8 \"go\""),
        other => panic!("{other:?}"),
    }
}
