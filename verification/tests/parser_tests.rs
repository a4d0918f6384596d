use xact::ast::{
    AgentBlock, AgentClause, AgentClauseKind, AgentVerb, Command, Line, Operand, OwnershipKind as Own,
    PolicyArgs, PolicyOperator, PolicyStatement, ReferenceKind as Ref, SuccessCondition, Verb,
};
use xact::parser::{parse_line, ParseOutcome};

fn command(outcome: ParseOutcome) -> Command {
    match outcome {
        ParseOutcome::Complete(Line::Command(cmd)) => cmd,
        other => panic!("expected complete command, got {other:?}"),
    }
}

fn policy(outcome: ParseOutcome) -> PolicyStatement {
    match outcome {
        ParseOutcome::Complete(Line::Policy(stmt)) => stmt,
        other => panic!("expected complete policy, got {other:?}"),
    }
}

fn agent(outcome: ParseOutcome) -> AgentBlock {
    match outcome {
        ParseOutcome::Complete(Line::Agent(block)) => block,
        other => panic!("expected complete agent block, got {other:?}"),
    }
}

#[test]
fn complete_see_with_owned_path() {
    let cmd = match command(parse_line("£ SEE MY ~/Documents")) {
        Command::Imperative(cmd) => cmd,
        other => panic!("expected imperative, got {other:?}"),
    };
    assert_eq!(cmd.verb, Verb::See);
    match cmd.operand {
        Some(Operand::Owned { kind, path, .. }) => {
            assert_eq!(kind, Own::My);
            assert_eq!(path, "~/Documents");
        }
        other => panic!("expected owned operand, got {other:?}"),
    }
    assert_eq!(cmd.destination, None);
}

#[test]
fn incomplete_copy_missing_target() {
    match parse_line("£ COPY") {
        ParseOutcome::Incomplete(diag) => {
            assert!(diag.expected.contains(&"MY".to_string()));
            assert!(diag.expected.contains(&"THIS".to_string()));
        }
        other => panic!("expected incomplete, got {other:?}"),
    }
}

#[test]
fn incomplete_ownership_missing_path() {
    match parse_line("£ COPY MY") {
        ParseOutcome::Incomplete(diag) => {
            assert_eq!(diag.expected, vec!["<path>".to_string()]);
        }
        other => panic!("expected incomplete, got {other:?}"),
    }
}

#[test]
fn invalid_unknown_verb() {
    match parse_line("£ FROBNICATE MY ~/x") {
        ParseOutcome::Invalid(diag) => {
            assert!(diag.message.contains("Unknown command"));
        }
        other => panic!("expected invalid, got {other:?}"),
    }
}

#[test]
fn grammatically_complete_reference_operand_is_accepted() {
    let cmd = match command(parse_line("£ COPY THAT")) {
        Command::Imperative(cmd) => cmd,
        other => panic!("expected imperative, got {other:?}"),
    };
    match cmd.operand {
        Some(Operand::Reference { kind, .. }) => assert_eq!(kind, Ref::That),
        other => panic!("expected reference operand, got {other:?}"),
    }
}

#[test]
fn complete_copy_with_destination() {
    let cmd = match command(parse_line("£ COPY THAT to OUR ~/backup")) {
        Command::Imperative(cmd) => cmd,
        other => panic!("expected imperative, got {other:?}"),
    };
    assert_eq!(cmd.verb, Verb::Copy);
    match cmd.destination {
        Some(Operand::Owned { kind, path, .. }) => {
            assert_eq!(kind, Own::Our);
            assert_eq!(path, "~/backup");
        }
        other => panic!("expected owned destination, got {other:?}"),
    }
}

#[test]
fn complete_identity_declaration() {
    match command(parse_line("£ THEY are \"alice,bob\"")) {
        Command::Identity(decl) => {
            assert_eq!(decl.members, vec!["alice".to_string(), "bob".to_string()]);
        }
        other => panic!("expected identity, got {other:?}"),
    }
}

#[test]
fn run_takes_string_operand() {
    let cmd = match command(parse_line("£ RUN 'chrome'")) {
        Command::Imperative(cmd) => cmd,
        other => panic!("expected imperative, got {other:?}"),
    };
    assert_eq!(cmd.verb, Verb::Run);
    match cmd.operand {
        Some(Operand::StringArg { value, .. }) => assert_eq!(value, "chrome"),
        other => panic!("expected string operand, got {other:?}"),
    }
}

#[test]
fn run_with_when_clause_after_operand() {
    let cmd = match command(parse_line("£ RUN 'test' WHEN THAT SUCCEEDS")) {
        Command::Imperative(cmd) => cmd,
        other => panic!("expected imperative, got {other:?}"),
    };
    match cmd.dependency {
        Some(dep) => {
            assert_eq!(dep.reference, Ref::That);
            assert_eq!(dep.condition, SuccessCondition::Succeeds);
        }
        None => panic!("expected a dependency clause"),
    }
}

#[test]
fn run_with_when_fails_clause() {
    let cmd = match command(parse_line("£ RUN 'cleanup' WHEN THIS FAILS")) {
        Command::Imperative(cmd) => cmd,
        other => panic!("expected imperative, got {other:?}"),
    };
    match cmd.dependency {
        Some(dep) => {
            assert_eq!(dep.reference, Ref::This);
            assert_eq!(dep.condition, SuccessCondition::Fails);
        }
        None => panic!("expected a dependency clause"),
    }
}

#[test]
fn when_clause_after_destination() {
    let cmd = match command(parse_line("£ COPY THAT to OUR ~/backup WHEN THAT SUCCEEDS")) {
        Command::Imperative(cmd) => cmd,
        other => panic!("expected imperative, got {other:?}"),
    };
    assert!(cmd.destination.is_some());
    assert!(cmd.dependency.is_some());
}

#[test]
fn when_clause_incomplete_without_reference() {
    match parse_line("£ RUN 'test' WHEN") {
        ParseOutcome::Incomplete(diag) => {
            assert!(diag.expected.contains(&"THIS".to_string()));
            assert!(diag.expected.contains(&"THAT".to_string()));
        }
        other => panic!("expected incomplete, got {other:?}"),
    }
}

#[test]
fn when_clause_incomplete_without_condition() {
    match parse_line("£ RUN 'test' WHEN THAT") {
        ParseOutcome::Incomplete(diag) => {
            assert!(diag.expected.contains(&"SUCCEEDS".to_string()));
            assert!(diag.expected.contains(&"FAILS".to_string()));
        }
        other => panic!("expected incomplete, got {other:?}"),
    }
}

#[test]
fn when_clause_rejects_unknown_condition() {
    match parse_line("£ RUN 'test' WHEN THAT MAYBE") {
        ParseOutcome::Invalid(_) => {}
        other => panic!("expected invalid, got {other:?}"),
    }
}

#[test]
fn missing_pound_rejected() {
    match parse_line("SEE MY ~/Documents") {
        ParseOutcome::Invalid(diag) => assert!(diag.message.contains("must begin with")),
        other => panic!("expected invalid, got {other:?}"),
    }
}

#[test]
fn policy_save_with_quotas() {
    let stmt = policy(parse_line("! SAVE 20%RAM 30%CPU"));
    assert_eq!(stmt.operator, PolicyOperator::Save);
    match stmt.args {
        PolicyArgs::Quotas(quotas) => {
            assert_eq!(quotas.len(), 2);
            assert_eq!(quotas[0].percent, 20);
            assert_eq!(quotas[0].resource, "RAM");
            assert_eq!(quotas[1].percent, 30);
            assert_eq!(quotas[1].resource, "CPU");
        }
        other => panic!("expected quotas, got {other:?}"),
    }
}

#[test]
fn policy_save_incomplete_without_quota() {
    match parse_line("! SAVE") {
        ParseOutcome::Incomplete(diag) => assert!(diag.message.contains("requires at least one resource quota")),
        other => panic!("expected incomplete, got {other:?}"),
    }
}

#[test]
fn policy_with_capability() {
    let stmt = policy(parse_line("! WITH 'network'"));
    assert_eq!(stmt.operator, PolicyOperator::With);
    match stmt.args {
        PolicyArgs::Capability { name, .. } => assert_eq!(name, "network"),
        other => panic!("expected capability, got {other:?}"),
    }
}

#[test]
fn policy_concurrently_takes_no_args() {
    let stmt = policy(parse_line("! CONCURRENTLY"));
    assert_eq!(stmt.operator, PolicyOperator::Concurrently);
    assert_eq!(stmt.args, PolicyArgs::NoArgs);
}

#[test]
fn policy_concurrently_rejects_trailing_input() {
    match parse_line("! CONCURRENTLY now") {
        ParseOutcome::Invalid(diag) => assert!(diag.message.contains("takes no arguments")),
        other => panic!("expected invalid, got {other:?}"),
    }
}

#[test]
fn policy_unknown_operator_rejected() {
    match parse_line("! FROBNICATE") {
        ParseOutcome::Invalid(diag) => assert!(diag.message.contains("Unknown policy operator")),
        other => panic!("expected invalid, got {other:?}"),
    }
}

#[test]
fn policy_bad_quota_shape_rejected() {
    match parse_line("! SAVE RAM") {
        ParseOutcome::Invalid(diag) => assert!(diag.message.contains("not a resource quota")),
        other => panic!("expected invalid, got {other:?}"),
    }
}

#[test]
fn agent_block_minimal() {
    let block = agent(parse_line("@ TELL 'GPT-5.6-luna' \"Review this project.\""));
    assert_eq!(block.verb, AgentVerb::Tell);
    assert_eq!(block.target, "GPT-5.6-luna");
    assert!(block.clauses.is_empty());
    assert_eq!(block.instruction, "Review this project.");
}

#[test]
fn agent_block_full_spec_example() {
    let block = agent(parse_line(
        "@ TELL 'GPT-5.6-luna' BE \"a meticulous senior Rust engineer\" READING MY ~/project/ POPULATING MY ~/project/review/ THINK 80 \"Review this project.\"",
    ));
    assert_eq!(block.clauses.len(), 4);
    match block.clause(AgentClauseKind::Be) {
        Some(AgentClause::Be { persona, .. }) => assert_eq!(persona, "a meticulous senior Rust engineer"),
        other => panic!("expected BE clause, got {other:?}"),
    }
    match block.clause(AgentClauseKind::Reading) {
        Some(AgentClause::Reading { operand: Operand::Owned { kind, path, .. }, .. }) => {
            assert_eq!(*kind, Own::My);
            assert_eq!(path, "~/project/");
        }
        other => panic!("expected READING clause, got {other:?}"),
    }
    match block.clause(AgentClauseKind::Think) {
        Some(AgentClause::Think { budget, .. }) => assert_eq!(*budget, 80),
        other => panic!("expected THINK clause, got {other:?}"),
    }
    assert_eq!(block.instruction, "Review this project.");
}

#[test]
fn agent_block_incomplete_without_instruction() {
    match parse_line("@ TELL 'x' BE \"engineer\"") {
        ParseOutcome::Incomplete(diag) => {
            assert!(diag.expected.contains(&"READING".to_string()));
            assert!(!diag.expected.contains(&"BE".to_string()));
        }
        other => panic!("expected incomplete, got {other:?}"),
    }
}

#[test]
fn agent_block_rejects_duplicate_clause() {
    match parse_line("@ TELL 'x' BE \"a\" BE \"b\" \"go\"") {
        ParseOutcome::Invalid(diag) => assert!(diag.message.contains("already given")),
        other => panic!("expected invalid, got {other:?}"),
    }
}

#[test]
fn agent_block_rejects_unknown_agent_verb() {
    match parse_line("@ ASK 'x' \"go\"") {
        ParseOutcome::Invalid(diag) => assert!(diag.message.contains("Unknown agent verb")),
        other => panic!("expected invalid, got {other:?}"),
    }
}

#[test]
fn agent_block_think_requires_number() {
    match parse_line("@ TELL 'x' THINK deep \"go\"") {
        ParseOutcome::Invalid(diag) => assert!(diag.message.contains("not a valid THINK budget")),
        other => panic!("expected invalid, got {other:?}"),
    }
}

#[test]
fn keywords_are_case_insensitive() {
    let cmd = match command(parse_line("£ see my ~/x")) {
        Command::Imperative(cmd) => cmd,
        other => panic!("expected imperative, got {other:?}"),
    };
    assert_eq!(cmd.verb, Verb::See);
}

#[test]
fn identity_members_are_trimmed_and_empty_ones_dropped() {
    match command(parse_line("£ THEY are \" alice , ,bob \"")) {
        Command::Identity(decl) => {
            assert_eq!(decl.members, vec!["alice".to_string(), "bob".to_string()]);
        }
        other => panic!("expected identity, got {other:?}"),
    }
}

#[test]
fn identity_with_no_member_is_invalid() {
    match parse_line("£ THEY are \" , \"") {
        ParseOutcome::Invalid(diag) => assert!(diag.message.contains("at least one member")),
        other => panic!("expected invalid, got {other:?}"),
    }
}

#[test]
fn empty_line_is_incomplete_and_expects_pound() {
    match parse_line("") {
        ParseOutcome::Incomplete(diag) => assert_eq!(diag.expected, vec!["£".to_string()]),
        other => panic!("expected incomplete, got {other:?}"),
    }
}

#[test]
fn quota_percent_must_be_a_number() {
    match parse_line("! SPEND x%RAM") {
        ParseOutcome::Invalid(diag) => {
            assert_eq!(diag.message, "'x' is not a valid percentage in 'x%RAM'.");
        }
        other => panic!("expected invalid, got {other:?}"),
    }
}

#[test]
fn quota_resource_is_upper_cased() {
    let stmt = policy(parse_line("! SPEND 10%ram"));
    match stmt.args {
        PolicyArgs::Quotas(quotas) => assert_eq!(quotas[0].resource, "RAM"),
        other => panic!("expected quotas, got {other:?}"),
    }
}

#[test]
fn quota_without_resource_is_invalid() {
    match parse_line("! SPEND 10%") {
        ParseOutcome::Invalid(diag) => assert!(diag.message.contains("missing a resource name")),
        other => panic!("expected invalid, got {other:?}"),
    }
}

#[test]
fn unknown_reference_after_when_is_invalid() {
    match parse_line("£ RUN 'x' WHEN THOSE SUCCEEDS") {
        ParseOutcome::Invalid(diag) => {
            assert_eq!(diag.message, "Unknown reference 'THOSE' after WHEN.");
            assert_eq!(diag.expected, vec!["THIS".to_string(), "THAT".to_string()]);
        }
        other => panic!("expected invalid, got {other:?}"),
    }
}

#[test]
fn unknown_target_names_its_context() {
    match parse_line("£ COPY MY x to BOGUS") {
        ParseOutcome::Invalid(diag) => {
            assert_eq!(diag.message, "'BOGUS' is not a valid target for 'to'.");
        }
        other => panic!("expected invalid, got {other:?}"),
    }
}

#[test]
fn pound_alone_expects_a_command() {
    match parse_line("£") {
        ParseOutcome::Incomplete(diag) => {
            assert_eq!(diag.expected.first(), Some(&"!".to_string()));
            assert_eq!(diag.expected.last(), Some(&"THEY".to_string()));
            assert_eq!(diag.expected.len(), 12);
        }
        other => panic!("expected incomplete, got {other:?}"),
    }
}

fn incomplete_expected(input: &str) -> Vec<String> {
    match parse_line(input) {
        ParseOutcome::Incomplete(diag) => diag.expected,
        other => panic!("expected incomplete for {input}, got {other:?}"),
    }
}

#[test]
fn a_partial_verb_is_incomplete_not_invalid() {
    let expected = incomplete_expected("£ C");
    assert!(expected.contains(&"CREATE".to_string()));
    assert!(expected.contains(&"COPY".to_string()));
    assert!(expected.contains(&"CUT".to_string()));
    assert!(!expected.contains(&"SEE".to_string()));
    assert_eq!(incomplete_expected("£ cr"), vec!["CREATE".to_string()]);
    match parse_line("£ C") {
        ParseOutcome::Incomplete(diag) => assert_eq!(diag.message, "'C' is not complete yet."),
        other => panic!("{other:?}"),
    }
}

#[test]
fn partial_keywords_at_every_keyword_position_are_incomplete() {
    assert_eq!(incomplete_expected("! CON"), vec!["CONCURRENTLY".to_string(), "CONSECUTIVELY".to_string()]);
    assert_eq!(incomplete_expected("@ TE"), vec!["TELL".to_string(), "TEAM".to_string()]);
    assert_eq!(incomplete_expected("£ THEY a"), vec!["are".to_string()]);
    assert!(incomplete_expected("£ SEE M").contains(&"MY".to_string()));
    assert_eq!(incomplete_expected("£ COPY MY a t"), vec!["to".to_string()]);
    assert_eq!(incomplete_expected("£ COPY MY a to OUR b W"), vec!["WHEN".to_string()]);
    assert_eq!(incomplete_expected("£ RUN 'x' WHEN TH"), vec!["THIS".to_string(), "THAT".to_string()]);
    assert_eq!(incomplete_expected("£ RUN 'x' WHEN THAT SUC"), vec!["SUCCEEDS".to_string()]);
    assert!(incomplete_expected("@ TELL 'x' RE").contains(&"READING".to_string()));
}

#[test]
fn a_word_that_no_continuation_repairs_stays_invalid() {
    assert!(matches!(parse_line("£ Z"), ParseOutcome::Invalid(_)));
    assert!(matches!(parse_line("£ C MY ~/x"), ParseOutcome::Invalid(_)));
    assert!(matches!(parse_line("! SX"), ParseOutcome::Invalid(_)));
    assert!(matches!(parse_line("@ TELL 'x' BE \"a\" B"), ParseOutcome::Invalid(_)));
}
