use xact::ast::ResourceBudget;
use xact::resource::{cgroup_base, check_budget, cpu_max_text, mem_total_bytes, memory_cap_bytes, require_controller};

#[test]
fn empty_budget_needs_nothing_and_unenforceable_resources_are_refused() {
    assert_eq!(check_budget(&ResourceBudget::default()).ok(), Some(false));
    let cpu = ResourceBudget { cpu_percent: Some(40), ..Default::default() };
    assert_eq!(check_budget(&cpu).ok(), Some(true));
    let gpu = ResourceBudget { unenforceable: vec!["GPU".to_string(), "DISK".to_string()], ..Default::default() };
    assert_eq!(
        check_budget(&gpu).unwrap_err().message(),
        "cannot enforce a resource policy for GPU, DISK \u{2014} Xact only enforces CPU and RAM today."
    );
}

#[test]
fn cpu_and_memory_caps() {
    assert_eq!(cpu_max_text(40), "40000 100000");
    assert_eq!(cpu_max_text(100), "100000 100000");
    assert_eq!(memory_cap_bytes(1000, 50), 500);
    assert_eq!(memory_cap_bytes(u64::MAX / 100, 100), u64::MAX / 100);
    assert_eq!(memory_cap_bytes(1000, 150), 1500);
}

#[test]
fn controllers_are_whole_words() {
    assert!(require_controller("cpuset cpu io memory pids", "cpu", "/g").is_ok());
    assert!(require_controller("cpuset io", "cpu", "/g").is_err());
    assert_eq!(
        require_controller("io", "memory", "/g").unwrap_err().message(),
        "the 'memory' cgroup controller isn't available under /g \u{2014} cannot enforce this resource."
    );
}

#[test]
fn the_delegated_subtree_is_the_first_user_service_scope() {
    let contents = "1:name=systemd:/\n0::/user.slice/user-1000.slice/user@1000.service/app.slice/x.scope\n";
    assert_eq!(cgroup_base(contents).unwrap(), "/sys/fs/cgroup/user.slice/user-1000.slice/user@1000.service");
    assert!(cgroup_base("0::/system.slice/x.service\n").is_err());
    assert_eq!(
        cgroup_base("1:cpu:/\n").unwrap_err().message(),
        "this system is not using the cgroup v2 unified hierarchy"
    );
}

#[test]
fn total_ram_comes_from_meminfo_in_kilobytes() {
    let meminfo = "MemFree:  10 kB\nMemTotal:       16384 kB\n";
    assert_eq!(mem_total_bytes(meminfo).unwrap(), 16384 * 1024);
    assert!(mem_total_bytes("MemFree: 1 kB\n").is_err());
    assert_eq!(
        mem_total_bytes("MemTotal: lots\n").unwrap_err().message(),
        "could not parse /proc/meminfo line: MemTotal: lots"
    );
}

#[test]
fn format_u32_writes_digits_at_the_end() {
    let mut buf = [0u8; 10];
    let start = xact::resource::format_u32(4096, &mut buf);
    assert_eq!(&buf[start..], b"4096");
    let start = xact::resource::format_u32(0, &mut buf);
    assert_eq!(&buf[start..], b"0");
    let start = xact::resource::format_u32(u32::MAX, &mut buf);
    assert_eq!(start, 0);
    assert_eq!(&buf[start..], b"4294967295");
}
