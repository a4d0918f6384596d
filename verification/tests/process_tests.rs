use xact::ast::OwnershipKind;
use xact::process::{
    falls_back_to_shared_dirs, launch_plan, not_found_anywhere, split_command_line, system_bin_directories,
    LaunchPlan,
};

#[test]
fn system_bin_dirs_contains_the_real_standard_locations() {
    assert!(system_bin_directories().contains(&"/usr/bin"));
    assert!(system_bin_directories().contains(&"/bin"));
}

#[test]
fn command_lines_split_on_white_space_without_quoting() {
    let (program, args) = split_command_line("sh -c \"exit 3\"").unwrap();
    assert_eq!(program, "sh");
    assert_eq!(args, vec!["-c".to_string(), "\"exit".to_string(), "3\"".to_string()]);
    assert!(split_command_line("   ").is_err());
    assert_eq!(split_command_line("").unwrap_err().message(), "RUN was given an empty command.");
}

#[test]
fn our_domain_never_consults_path_and_paths_never_fall_back() {
    assert_eq!(launch_plan(OwnershipKind::Our), LaunchPlan::SharedDirsOnly);
    assert_eq!(launch_plan(OwnershipKind::My), LaunchPlan::ByName);
    assert!(falls_back_to_shared_dirs(OwnershipKind::My, "ls"));
    assert!(!falls_back_to_shared_dirs(OwnershipKind::My, "./ls"));
    assert!(!falls_back_to_shared_dirs(OwnershipKind::Their, "ls"));
    assert_eq!(
        not_found_anywhere("x").message(),
        "'x' was not found on $PATH or in Xact's shared system binary directories."
    );
}
