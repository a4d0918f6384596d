use xact::completion::complete;
use xact::parser::{parse_line, ParseOutcome};

#[test]
fn suggests_verbs_and_they_at_start() {
    let suggestions = complete("£ ");
    assert!(suggestions.contains(&"SEE".to_string()));
    assert!(suggestions.contains(&"CREATE".to_string()));
    assert!(suggestions.contains(&"THEY".to_string()));
}

#[test]
fn suggests_ownership_and_reference_after_verb() {
    let suggestions = complete("£ COPY");
    assert!(suggestions.contains(&"MY".to_string()));
    assert!(suggestions.contains(&"THIS".to_string()));
}

#[test]
fn suggests_path_after_ownership_keyword() {
    assert_eq!(complete("£ COPY MY"), vec!["<path>".to_string()]);
}

#[test]
fn no_suggestions_for_a_complete_command() {
    assert!(complete("£ SEE MY ~/Documents").is_empty());
}

#[test]
fn suggests_policy_operators_after_bang() {
    let suggestions = complete("!");
    assert!(suggestions.contains(&"WITH".to_string()));
    assert!(suggestions.contains(&"SAVE".to_string()));
    assert!(suggestions.contains(&"CONCURRENTLY".to_string()));
}

#[test]
fn suggests_quota_placeholder_after_save() {
    assert_eq!(complete("! SAVE"), vec!["<percent>%<resource>".to_string()]);
}

#[test]
fn suggests_agent_verbs_after_at() {
    let suggestions = complete("@");
    assert_eq!(suggestions, vec!["TELL".to_string(), "TEAM".to_string()]);
}

#[test]
fn suggests_remaining_clauses_and_instruction_placeholder() {
    let suggestions = complete("@ TELL 'x' BE \"engineer\"");
    assert!(!suggestions.contains(&"BE".to_string()));
    assert!(suggestions.contains(&"READING".to_string()));
    assert!(suggestions.contains(&"'...'".to_string()));
}

#[test]
fn does_not_suggest_operators_after_an_operator() {
    let suggestions = complete("£ COPY");
    assert!(!suggestions.contains(&"SEE".to_string()));
    assert!(!suggestions.contains(&"EDIT".to_string()));
}

#[test]
fn narrows_verbs_by_partial_prefix() {
    let suggestions = complete("£ C");
    assert!(suggestions.contains(&"CREATE".to_string()));
    assert!(suggestions.contains(&"COPY".to_string()));
    assert!(suggestions.contains(&"CUT".to_string()));
    assert!(!suggestions.contains(&"RUN".to_string()));
    assert!(!suggestions.contains(&"SEE".to_string()));
    assert!(!suggestions.contains(&"EDIT".to_string()));
    assert!(!suggestions.contains(&"MOVE".to_string()));
    assert!(!suggestions.contains(&"PASTE".to_string()));
    assert!(!suggestions.contains(&"DELETE".to_string()));
    assert!(!suggestions.contains(&"BOUND".to_string()));
    assert!(!suggestions.contains(&"THEY".to_string()));
}

#[test]
fn narrows_further_as_more_characters_are_typed() {
    assert_eq!(complete("£ CR"), vec!["CREATE".to_string()]);
}

#[test]
fn narrowing_is_case_insensitive() {
    assert_eq!(complete("£ c"), complete("£ C"));
}

#[test]
fn a_fully_typed_verb_with_no_trailing_space_is_not_re_filtered() {
    let suggestions = complete("£ RUN");
    assert!(suggestions.contains(&"MY".to_string()));
    assert!(suggestions.contains(&"'...'".to_string()));
}

#[test]
fn placeholders_are_never_filtered_out_by_a_partial_prefix() {
    let suggestions = complete("@ TELL 'x' READING T");
    assert!(suggestions.contains(&"THIS".to_string()));
    assert!(suggestions.contains(&"THAT".to_string()));
    assert!(suggestions.contains(&"'...'".to_string()));
}

#[test]
fn narrows_policy_operators_by_partial_prefix() {
    let suggestions = complete("! S");
    assert!(suggestions.contains(&"SPEND".to_string()));
    assert!(suggestions.contains(&"SAVE".to_string()));
    assert!(!suggestions.contains(&"WITH".to_string()));
    assert!(!suggestions.contains(&"CONCURRENTLY".to_string()));
}

#[test]
fn narrows_agent_verbs_by_partial_prefix() {
    assert_eq!(complete("@ TE"), vec!["TELL".to_string(), "TEAM".to_string()]);
    assert_eq!(complete("@ TEL"), vec!["TELL".to_string()]);
}

#[test]
fn unmatched_prefix_narrows_to_nothing() {
    assert!(complete("£ Z").is_empty());
}

#[test]
fn every_suggestion_is_one_the_parser_expects() {
    for input in ["£ C", "! S", "@ TELL 'x' READING T", "£ COPY MY", "@ TE"] {
        let expected = match parse_line(input) {
            ParseOutcome::Incomplete(d) | ParseOutcome::Invalid(d) => d.expected,
            ParseOutcome::Complete(_) => Vec::new(),
        };
        for s in complete(input) {
            assert!(expected.contains(&s), "{s} for {input}");
        }
    }
}
