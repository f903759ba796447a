use node_agent::processes::{build_snapshot, ProcSample, Process, Processes};

fn sample(name: &str, cmdline: Option<&str>, exe: Option<&str>) -> ProcSample {
    ProcSample {
        name: name.to_string(),
        cmdline: cmdline.map(|c| c.to_string()),
        exe: exe.map(|e| e.to_string()),
    }
}

fn basic_scan() -> Vec<ProcSample> {
    vec![
        sample("1", Some("/sbin/init\0splash"), Some("/usr/lib/systemd/systemd")),
        sample("42", Some("/usr/bin/daemon\0--flag"), None),
        sample("self", Some("irrelevant"), None),
    ]
}

#[test]
fn get_all_processes_which_succeed() {
    let result = Processes::new(&basic_scan());
    assert!(if result.processes.iter().count() > 0 { true } else { false });
}

#[test]
fn get_new_processes_which_succeed() {
    let mut processes = Processes::new(&basic_scan());
    // one more process appears between the scans
    let mut second_scan = basic_scan();
    second_scan.push(sample("77", Some("ls\0-l"), Some("/usr/bin/ls")));
    let result = processes.get_new_processes(&second_scan);
    assert!(if result.iter().count() > 0 { true } else { false });
}

#[test]
fn identical_scans_yield_no_new_processes() {
    let mut processes = Processes::new(&basic_scan());
    let result = processes.get_new_processes(&basic_scan());
    assert_eq!(result.len(), 0);
    // and again: the baseline slid to the latest identical scan
    let result = processes.get_new_processes(&basic_scan());
    assert_eq!(result.len(), 0);
}

#[test]
fn one_spawned_process_yields_exactly_one_new_record() {
    let mut processes = Processes::new(&basic_scan());
    let mut second_scan = basic_scan();
    second_scan.push(sample("77", Some("ls\0-l"), Some("/usr/bin/ls")));
    let result = processes.get_new_processes(&second_scan);
    assert_eq!(result.len(), 1);
    assert_eq!(result[0].pid, "77");
    assert_eq!(result[0].cmd, "ls");
    // the baseline slid: the same scan again reports nothing new
    let result = processes.get_new_processes(&second_scan);
    assert_eq!(result.len(), 0);
}

#[test]
fn snapshot_keeps_only_numeric_readable_entries() {
    let scan = vec![
        sample("1", Some("/sbin/init"), None),
        sample("self", Some("x"), None),
        sample("acpi", Some("y"), None),
        sample("2", None, Some("/usr/bin/gone")),
    ];
    let records = build_snapshot(&scan);
    assert_eq!(records.len(), 1);
    assert_eq!(records[0].pid, "1");
}

#[test]
fn command_is_first_token_of_first_field() {
    let scan = vec![
        sample("10", Some("/usr/bin/prog\0--opt\0value"), None),
        sample("11", Some("bash -c sleep 5"), None),
        sample("12", Some(""), None),
    ];
    let records = build_snapshot(&scan);
    assert_eq!(records[0].cmd, "/usr/bin/prog");
    assert_eq!(records[0].cmdline, "/usr/bin/prog\0--opt\0value");
    assert_eq!(records[1].cmd, "bash");
    assert_eq!(records[2].cmd, "");
}

#[test]
fn unreadable_executable_yields_empty_exe_field() {
    let scan = vec![sample("5", Some("/usr/bin/secret"), None)];
    let records = build_snapshot(&scan);
    assert_eq!(records[0].exe, "");
    assert_eq!(records[0].pid, "5");
}

#[test]
fn records_compare_by_all_fields() {
    let a = Process {
        pid: "1".to_string(),
        exe: "/bin/a".to_string(),
        cmd: "a".to_string(),
        cmdline: "a".to_string(),
    };
    let b = Process {
        pid: "1".to_string(),
        exe: "/bin/a".to_string(),
        cmd: "a".to_string(),
        cmdline: "a".to_string(),
    };
    let c = Process {
        pid: "1".to_string(),
        exe: "/bin/b".to_string(),
        cmd: "a".to_string(),
        cmdline: "a".to_string(),
    };
    assert!(a == b);
    assert!(a != c);
}

#[test]
fn reused_pid_with_new_command_line_counts_as_new() {
    let first = vec![sample("9", Some("old\0"), None)];
    let mut processes = Processes::new(&first);
    let second = vec![sample("9", Some("new\0"), None)];
    let result = processes.get_new_processes(&second);
    assert_eq!(result.len(), 1);
    assert_eq!(result[0].cmdline, "new\0");
}
