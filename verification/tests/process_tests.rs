use multi_instance::lifecycle::{CloseAction, ClosePhase, CloseSession};
use multi_instance::process::{
    belongs_to_app, find_root_pid, get_all_instance_root_pids, get_antigravity_pids,
    get_instance_pids, get_self_family_pids, get_user_data_dir_from_process, is_antigravity_running,
    is_default_instance_running, is_helper_process, is_instance_running, Platform, ProcessRecord,
    ScanContext,
};

fn proc(pid: u32, parent: Option<u32>, name: &str, exe: &str, args: &[&str]) -> ProcessRecord {
    ProcessRecord {
        pid,
        parent_pid: parent,
        name: name.into(),
        exe_path: exe.into(),
        args: args.iter().map(|a| String::from(*a)).collect(),
    }
}

fn linux_ctx() -> ScanContext {
    ScanContext {
        platform: Platform::Linux,
        self_pid: 999,
        self_exe: Some("/opt/tools/antigravity_tools".into()),
        manual_exe: None,
    }
}

#[test]
fn helper_keywords_and_role_marker_classify_helpers() {
    let renderer = proc(10, Some(1), "Antigravity Helper (Renderer)", "/a/antigravity", &[]);
    assert!(is_helper_process(&renderer));

    let by_args = proc(11, Some(1), "antigravity", "/a/antigravity", &["--type=gpu-process"]);
    assert!(is_helper_process(&by_args));

    let crashpad = proc(12, Some(1), "app", "/a/crashpad_handler", &[]);
    assert!(is_helper_process(&crashpad));

    let main = proc(13, Some(1), "antigravity", "/usr/bin/antigravity", &["--flag"]);
    assert!(!is_helper_process(&main));
}

#[test]
fn lowercasing_matters_for_classification() {
    // an upper-case name still classifies: the classifier lowercases first
    let p = proc(20, None, "ANTIGRAVITY.EXE", "C:\\APP\\ANTIGRAVITY.EXE", &[]);
    assert!(belongs_to_app(&p, Platform::Windows));
    let h = proc(21, None, "Antigravity HELPER", "/a/b", &[]);
    assert!(is_helper_process(&h));
}

#[test]
fn running_detection_excludes_self_and_helpers() {
    let ctx = linux_ctx();
    let snapshot = vec![
        proc(999, None, "antigravity_tools", "/opt/tools/antigravity_tools", &[]),
        proc(10, Some(1), "Antigravity Helper", "/usr/bin/antigravity", &["--type=renderer"]),
    ];
    assert!(!is_antigravity_running(&snapshot, &ctx));

    let with_main = vec![
        proc(999, None, "antigravity_tools", "/opt/tools/antigravity_tools", &[]),
        proc(42, Some(1), "antigravity", "/usr/bin/antigravity", &[]),
    ];
    assert!(is_antigravity_running(&with_main, &ctx));
}

#[test]
fn get_antigravity_pids_respects_exclusions() {
    let ctx = linux_ctx();
    let snapshot = vec![
        proc(42, Some(1), "antigravity", "/usr/bin/antigravity", &[]),
        proc(43, Some(42), "antigravity", "/usr/bin/antigravity", &["--type=zygote"]),
        proc(44, Some(1), "antigravity", "/usr/bin/antigravity", &[]),
    ];
    let excluded = vec![44u32];
    let pids = get_antigravity_pids(&snapshot, &ctx, &excluded);
    assert_eq!(pids, vec![42]);
}

#[test]
fn root_walk_follows_app_named_parents() {
    let snapshot = vec![
        proc(1, None, "systemd", "/sbin/init", &[]),
        proc(100, Some(1), "antigravity", "/usr/bin/antigravity", &["--user-data-dir=/d1"]),
        proc(101, Some(100), "antigravity", "/usr/bin/antigravity", &["--type=gpu"]),
        proc(102, Some(101), "antigravity", "/usr/bin/antigravity", &["--type=renderer"]),
    ];
    assert_eq!(find_root_pid(&snapshot, 102), 100);
    assert_eq!(find_root_pid(&snapshot, 100), 100);
}

#[test]
fn default_instance_detected_by_missing_directory_argument() {
    let snapshot = vec![
        proc(1, None, "systemd", "/sbin/init", &[]),
        proc(100, Some(1), "antigravity", "/usr/bin/antigravity", &["/usr/bin/antigravity"]),
        proc(101, Some(100), "antigravity", "/usr/bin/antigravity", &["--type=gpu"]),
    ];
    assert!(is_default_instance_running(&snapshot, 999));

    let custom = vec![
        proc(1, None, "systemd", "/sbin/init", &[]),
        proc(
            100,
            Some(1),
            "antigravity",
            "/usr/bin/antigravity",
            &["/usr/bin/antigravity", "--user-data-dir=/d1"],
        ),
    ];
    assert!(!is_default_instance_running(&custom, 999));
}

#[test]
fn instance_binding_normalizes_separators_and_case() {
    let ctx = ScanContext {
        platform: Platform::Windows,
        self_pid: 999,
        self_exe: None,
        manual_exe: None,
    };
    let snapshot = vec![proc(
        50,
        Some(1),
        "Antigravity.exe",
        "C:\\App\\Antigravity.exe",
        &["C:\\App\\Antigravity.exe", "--user-data-dir=C:\\Data\\Work"],
    )];
    // forward slashes and different case still match after normalization
    assert!(is_instance_running(&snapshot, &ctx, "c:/data/work"));
    assert_eq!(get_instance_pids(&snapshot, &ctx, "c:/data/work"), vec![50]);
    assert!(!is_instance_running(&snapshot, &ctx, "c:/data/other"));
}

#[test]
fn two_instances_resolve_to_distinct_roots() {
    let snapshot = vec![
        proc(1, None, "systemd", "/sbin/init", &[]),
        proc(100, Some(1), "antigravity", "/usr/bin/antigravity", &["--user-data-dir=/d1"]),
        proc(101, Some(100), "antigravity", "/usr/bin/antigravity", &["--type=gpu"]),
        proc(200, Some(1), "antigravity", "/usr/bin/antigravity", &["--user-data-dir=/d2"]),
    ];
    let roots_a = get_all_instance_root_pids(&snapshot, 999, "/d1", &None);
    assert_eq!(roots_a, vec![100]);
    let roots_b = get_all_instance_root_pids(&snapshot, 999, "/d2", &None);
    assert_eq!(roots_b, vec![200]);
}

#[test]
fn self_family_covers_ancestors_and_descendants() {
    let snapshot = vec![
        proc(1, None, "systemd", "/sbin/init", &[]),
        proc(10, Some(1), "terminal", "/usr/bin/term", &[]),
        proc(20, Some(10), "antigravity_tools", "/opt/tools/antigravity_tools", &[]),
        proc(30, Some(20), "child", "/opt/tools/helper", &[]),
        proc(40, Some(30), "grandchild", "/opt/tools/helper2", &[]),
        proc(50, Some(1), "unrelated", "/usr/bin/other", &[]),
    ];
    let family = get_self_family_pids(&snapshot, 20);
    assert!(family.contains(&20));
    assert!(family.contains(&10));
    assert!(family.contains(&1));
    assert!(family.contains(&30));
    assert!(family.contains(&40));
    assert!(!family.contains(&50));
}

#[test]
fn close_with_no_live_process_is_a_successful_no_op() {
    let roots: Vec<u32> = vec![];
    let (session, action) = CloseSession::begin(&roots, 10_000);
    assert_eq!(session.phase, ClosePhase::Done);
    match action {
        CloseAction::Finished(res) => assert!(res.is_ok()),
        _ => panic!("expected the close to finish without any signal"),
    }
}

#[test]
fn forceful_signal_only_after_seventy_percent_of_budget() {
    // a process that ignores the graceful signal
    let roots = vec![42u32];
    let budget: u64 = 10_000;
    let (mut session, action) = CloseSession::begin(&roots, budget);
    match action {
        CloseAction::SendGraceful(p) => assert_eq!(p, vec![42]),
        _ => panic!("expected the graceful signal first"),
    }
    let mut elapsed: u64 = 0;
    let mut forced_at: Option<u64> = None;
    while elapsed <= budget {
        match session.poll(elapsed, true) {
            CloseAction::WaitPoll(ms) => {
                assert!(elapsed < (budget * 7) / 10);
                elapsed += ms;
            }
            CloseAction::Escalate => {
                assert!(elapsed >= (budget * 7) / 10);
                match session.escalate(&roots) {
                    CloseAction::SendForceful(p) => {
                        assert_eq!(p, vec![42]);
                        forced_at = Some(elapsed);
                    }
                    _ => panic!("expected the forceful signal"),
                }
                break;
            }
            _ => panic!("unexpected action"),
        }
    }
    assert_eq!(forced_at, Some(7_000));
    match session.final_check(true) {
        CloseAction::Finished(res) => {
            let err = res.unwrap_err();
            assert_eq!(err.kind(), multi_instance::errors::ErrorKind::Termination);
        }
        _ => panic!("expected the close to finish"),
    }
}

#[test]
fn close_succeeds_as_soon_as_nothing_is_detected() {
    let roots = vec![7u32];
    let (mut session, _) = CloseSession::begin(&roots, 10_000);
    match session.poll(500, false) {
        CloseAction::Finished(res) => assert!(res.is_ok()),
        _ => panic!("expected success once the application is gone"),
    }
}

#[test]
fn running_instances_report_per_directory() {
    let mut reg = multi_instance::registry::Registry::new();
    let a = reg.create_instance("A".into(), "/d1".into(), vec![]).unwrap();
    let b = reg.create_instance("B".into(), "/d2".into(), vec![]).unwrap();
    let ctx = linux_ctx();

    let both = vec![
        proc(100, Some(1), "antigravity", "/usr/bin/antigravity", &["--user-data-dir=/d1"]),
        proc(200, Some(1), "antigravity", "/usr/bin/antigravity", &["--user-data-dir=/d2"]),
    ];
    let running = reg.get_running_instances(&both, &ctx).unwrap();
    let ids: Vec<String> = running.iter().map(|i| i.id.clone()).collect();
    assert!(ids.contains(&a.id) && ids.contains(&b.id));

    // after closing "A", only "B" is still reported
    let after_close = vec![proc(
        200,
        Some(1),
        "antigravity",
        "/usr/bin/antigravity",
        &["--user-data-dir=/d2"],
    )];
    let running = reg.get_running_instances(&after_close, &ctx).unwrap();
    assert_eq!(running.len(), 1);
    assert_eq!(running[0].id, b.id);
}

#[test]
fn dir_argument_candidates_follow_both_spellings() {
    let config_args = Some(vec![
        String::from("--user-data-dir"),
        String::from("/cfg/dir"),
    ]);
    let process_args = Some(vec![String::from("--user-data-dir=/proc/dir")]);
    let candidates = get_user_data_dir_from_process(&config_args, &process_args);
    assert_eq!(candidates, vec![String::from("/cfg/dir"), String::from("/proc/dir")]);

    let nothing = get_user_data_dir_from_process(&None, &None);
    assert!(nothing.is_empty());
}

#[test]
fn close_instance_targets_only_matching_roots() {
    let snapshot = vec![
        proc(1, None, "systemd", "/sbin/init", &[]),
        proc(100, Some(1), "antigravity", "/usr/bin/antigravity", &["--user-data-dir=/d1"]),
        proc(101, Some(100), "antigravity", "/usr/bin/antigravity", &["--type=gpu"]),
        proc(200, Some(1), "antigravity", "/usr/bin/antigravity", &["--user-data-dir=/d2"]),
    ];
    let (session, action) =
        multi_instance::lifecycle::close_instance(&snapshot, 999, "/d1", &None, 10_000);
    assert_eq!(session.phase, ClosePhase::Polling);
    match action {
        CloseAction::SendGraceful(targets) => assert_eq!(targets, vec![100]),
        _ => panic!("expected the graceful signal"),
    }

    let (session, action) =
        multi_instance::lifecycle::close_instance(&snapshot, 999, "/elsewhere", &None, 10_000);
    assert_eq!(session.phase, ClosePhase::Done);
    match action {
        CloseAction::Finished(res) => assert!(res.is_ok()),
        _ => panic!("expected an immediate success"),
    }
}

#[test]
fn live_snapshot_has_unique_pids() {
    let snapshot = multi_instance::process::take_snapshot();
    let mut pids: Vec<u32> = snapshot.iter().map(|p| p.pid).collect();
    let before = pids.len();
    pids.sort_unstable();
    pids.dedup();
    assert_eq!(pids.len(), before);
}
