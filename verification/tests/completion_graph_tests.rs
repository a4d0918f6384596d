use xact::ast::{Operand, OwnershipKind, Span, Verb};
use xact::completion_graph::{dynamic_query, dynamic_request, trailing_target, DynamicQuery};
use xact::resolve::ResolverKind;

#[test]
fn nothing_is_typed_at_the_end_of_an_incomplete_or_finished_line() {
    assert!(trailing_target("£ SEE").is_none());
    assert!(trailing_target("£ SEE MY ~/ ").is_none());
    assert!(trailing_target("").is_none());
}

#[test]
fn the_trailing_operand_is_found_with_its_verb() {
    match trailing_target("£ SEE MY /bin/l") {
        Some((Verb::See, Operand::Owned { kind, path, .. })) => {
            assert_eq!(kind, OwnershipKind::My);
            assert_eq!(path, "/bin/l");
        }
        other => panic!("{other:?}"),
    }
    match trailing_target("£ RUN 'ls") {
        Some((Verb::Run, Operand::StringArg { value, .. })) => assert_eq!(value, "ls"),
        other => panic!("{other:?}"),
    }
    match trailing_target("£ COPY MY a to OUR b") {
        Some((Verb::Copy, Operand::Owned { path, .. })) => assert_eq!(path, "b"),
        other => panic!("{other:?}"),
    }
}

#[test]
fn binaries_for_run_paths_for_the_rest_and_nothing_once_argv_starts() {
    let binaries = vec![ResolverKind::InstalledBinary];
    let paths = vec![ResolverKind::FilesystemPath];
    let quoted = Operand::StringArg { value: "ls".into(), span: Span::default() };
    assert_eq!(
        dynamic_query(&quoted, &binaries),
        DynamicQuery::Binaries { prefix: "ls".into(), domain: OwnershipKind::My }
    );
    let with_args = Operand::StringArg { value: "ls -".into(), span: Span::default() };
    assert_eq!(dynamic_query(&with_args, &binaries), DynamicQuery::NoCandidates);
    let owned = Operand::Owned { kind: OwnershipKind::Our, path: "/bin/l".into(), span: Span::default() };
    assert_eq!(
        dynamic_query(&owned, &binaries),
        DynamicQuery::Binaries { prefix: "/bin/l".into(), domain: OwnershipKind::Our }
    );
    assert_eq!(dynamic_query(&owned, &paths), DynamicQuery::PathEntries { partial: "/bin/l".into() });
    assert_eq!(dynamic_query(&quoted, &paths), DynamicQuery::NoCandidates);
}

#[test]
fn no_dynamic_candidates_for_an_incomplete_command() {
    assert_eq!(dynamic_request("£ SEE"), DynamicQuery::NoCandidates);
}

#[test]
fn no_dynamic_candidates_once_the_input_has_moved_on() {
    assert_eq!(dynamic_request("£ SEE MY ~/ "), DynamicQuery::NoCandidates);
}

#[test]
fn resolves_real_installed_binaries_after_run_with_a_quoted_string() {
    assert_eq!(
        dynamic_request("£ RUN 'ls"),
        DynamicQuery::Binaries { prefix: "ls".into(), domain: OwnershipKind::My }
    );
}

#[test]
fn resolves_real_installed_binaries_after_run_with_a_bare_ownership_word() {
    assert_eq!(
        dynamic_request("£ RUN MY ls"),
        DynamicQuery::Binaries { prefix: "ls".into(), domain: OwnershipKind::My }
    );
}

#[test]
fn does_not_complete_binaries_once_argv_starts() {
    assert_eq!(dynamic_request("£ RUN 'ls -"), DynamicQuery::NoCandidates);
}

#[test]
fn does_not_resolve_binaries_for_a_path_taking_verb() {
    assert_eq!(dynamic_request("£ SEE MY /bin/l"), DynamicQuery::PathEntries { partial: "/bin/l".into() });
}
