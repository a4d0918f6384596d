use xact::ast::{OwnershipKind, Verb};
use xact::resolve::{
    anchor_my_default, binary_matches, binary_search_dirs, listing_dir, parse_discovery_events, path_candidate,
    path_matches, resolvers_for, search_dirs_for, split_partial_path, ResolverKind,
};

fn system_dirs() -> Vec<String> {
    ["/usr/local/sbin", "/usr/local/bin", "/usr/sbin", "/usr/bin", "/sbin", "/bin"]
        .iter()
        .map(|s| s.to_string())
        .collect()
}

#[test]
fn their_never_falls_back_to_a_directory_list() {
    assert!(search_dirs_for(OwnershipKind::Their, system_dirs()).is_empty());
}

#[test]
fn our_never_includes_path_in_search_dirs() {
    assert_eq!(
        search_dirs_for(OwnershipKind::Our, xact::resolve::system_bin_dirs()),
        xact::resolve::system_bin_dirs()
    );
}

#[test]
fn anchor_my_default_anchors_a_bare_relative_my_path_at_home() {
    assert_eq!(anchor_my_default("project/x", OwnershipKind::My, true), "~/project/x");
}

#[test]
fn anchor_my_default_leaves_an_absolute_path_unchanged() {
    assert_eq!(anchor_my_default("/tmp/project", OwnershipKind::My, true), "/tmp/project");
}

#[test]
fn anchor_my_default_leaves_an_already_tilde_path_unchanged() {
    assert_eq!(anchor_my_default("~/project", OwnershipKind::My, true), "~/project");
}

#[test]
fn anchor_my_default_never_applies_to_our_or_their() {
    assert_eq!(anchor_my_default("project", OwnershipKind::Our, true), "project");
    assert_eq!(anchor_my_default("project", OwnershipKind::Their, true), "project");
}

#[test]
fn anchor_my_default_never_applies_when_disabled() {
    assert_eq!(anchor_my_default("chrome", OwnershipKind::My, false), "chrome");
}

#[test]
fn our_domain_never_searches_path_directories() {
    let path_dirs = vec!["/opt/bin".to_string(), "/usr/bin".to_string()];
    assert_eq!(binary_search_dirs(OwnershipKind::Our, path_dirs.clone(), system_dirs()), system_dirs());
    let mine = binary_search_dirs(OwnershipKind::My, path_dirs, system_dirs());
    assert_eq!(mine[0], "/opt/bin");
    assert_eq!(mine[1], "/usr/bin");
    assert_eq!(mine.len(), 7);
}

#[test]
fn partial_paths_split_after_the_last_slash() {
    assert_eq!(split_partial_path("/tmp/al"), ("/tmp/".to_string(), "al".to_string()));
    assert_eq!(split_partial_path("al"), ("".to_string(), "al".to_string()));
    assert_eq!(listing_dir("", None), ".");
    assert_eq!(listing_dir("~/src/", Some("/home/u")), "/home/u/src/");
    assert_eq!(path_candidate("/tmp/", "alpha", true), "/tmp/alpha/");
    assert_eq!(path_candidate("/tmp/", "beta.txt", false), "/tmp/beta.txt");
}

#[test]
fn resolver_labels_round_trip() {
    for k in ResolverKind::all() {
        assert_eq!(ResolverKind::from_label(k.label()), Some(k));
    }
    assert_eq!(ResolverKind::from_label("other"), None);
}

#[test]
fn binary_matches_are_sorted_distinct_and_capped() {
    let names = vec!["ls".to_string(), "lsblk".to_string(), "cat".to_string(), "ls".to_string(), "l".to_string()];
    assert_eq!(binary_matches(names, "ls"), vec!["ls".to_string(), "lsblk".to_string()]);
    let many: Vec<String> = (0..80).rev().map(|i| format!("x{i:03}")).collect();
    let matches = binary_matches(many, "x");
    assert_eq!(matches.len(), 50);
    assert_eq!(matches[0], "x000");
    assert_eq!(matches[49], "x049");
}

#[test]
fn path_matches_filter_by_name_and_mark_directories() {
    let entries = vec![
        ("beta.txt".to_string(), false),
        ("alpha".to_string(), true),
        ("apricot.txt".to_string(), false),
    ];
    assert_eq!(
        path_matches("/d/", "a", entries.clone()),
        vec!["/d/alpha/".to_string(), "/d/apricot.txt".to_string()]
    );
    assert_eq!(path_matches("/d/", "", entries).len(), 3);
}

#[test]
fn discovery_events_report_named_entries_only() {
    let output = "{\"basename\":\"alpha\",\"relative\":\"alpha\",\"kind\":\"directory\"}\nnot json\n{\"basename\":\"beta.txt\",\"relative\":\"beta.txt\",\"kind\":\"file\"}\r\n{\"basename\":\"gamma\"}\n[1, 2]\n{\"basename\":\".hidden\",\"relative\":\".hidden\"}";
    assert_eq!(
        parse_discovery_events(output),
        vec![
            ("alpha".to_string(), true),
            ("beta.txt".to_string(), false),
            (".hidden".to_string(), false),
        ]
    );
}

#[test]
fn resolvers_for_run_is_installed_binary_only() {
    assert_eq!(resolvers_for(Verb::Run), vec![ResolverKind::InstalledBinary]);
}

#[test]
fn resolvers_for_see_is_filesystem_path_only() {
    assert_eq!(resolvers_for(Verb::See), vec![ResolverKind::FilesystemPath]);
}

#[test]
fn system_bin_dirs_matches_the_real_standard_locations_in_order() {
    assert_eq!(xact::resolve::system_bin_dirs(), system_dirs());
}

#[test]
fn a_zero_cap_keeps_nothing() {
    let items = vec!["b".to_string(), "a".to_string()];
    assert!(xact::resolve::first_in_string_order(items.clone(), 0).is_empty());
    assert_eq!(xact::resolve::first_in_string_order(items, 1), vec!["a".to_string()]);
}

#[test]
fn path_matches_keep_a_repeated_entry_and_cut_at_fifty() {
    let entries = vec![("b".to_string(), false), ("a".to_string(), true), ("b".to_string(), false)];
    assert_eq!(
        path_matches("", "", entries),
        vec!["a/".to_string(), "b".to_string(), "b".to_string()]
    );
    let many: Vec<(String, bool)> = (0..60).rev().map(|n| (format!("f{n:02}"), false)).collect();
    let got = path_matches("", "f", many);
    assert_eq!(got.len(), 50);
    assert_eq!(got[0], "f00");
    assert_eq!(got[49], "f49");
}
