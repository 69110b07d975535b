use multi_instance::cmdline::{
    get_process_command_line, parse_cmdline_to_args, parse_u32, parse_wmic_csv_row,
    refresh_process_command_line_cache, split_lines, trim_str, CmdlineCache,
};
use multi_instance::lifecycle::{start_antigravity, start_instance, start_instance_with_args};
use multi_instance::process::Platform;
use multi_instance::model::Instance;
use multi_instance::text::{bundle_match, contains_sub, lower_join, str_eq};

#[test]
fn cmdline_splits_on_spaces_outside_quotes() {
    let args = parse_cmdline_to_args(
        "\"C:\\Program Files\\Antigravity\\Antigravity.exe\" --user-data-dir=C:\\Data\\Work --flag",
    );
    assert_eq!(
        args,
        vec![
            String::from("C:\\Program Files\\Antigravity\\Antigravity.exe"),
            String::from("--user-data-dir=C:\\Data\\Work"),
            String::from("--flag"),
        ]
    );
    assert!(parse_cmdline_to_args("   ").is_empty());
    assert_eq!(parse_cmdline_to_args("a  b"), vec![String::from("a"), String::from("b")]);
}

#[test]
fn parse_u32_handles_digits_and_overflow() {
    assert_eq!(parse_u32("0"), Some(0));
    assert_eq!(parse_u32("4294967295"), Some(u32::MAX));
    assert_eq!(parse_u32("4294967296"), None);
    assert_eq!(parse_u32(""), None);
    assert_eq!(parse_u32("12a"), None);
}

#[test]
fn trim_strips_surrounding_whitespace() {
    assert_eq!(trim_str("  1234 \r\n"), "1234");
    assert_eq!(trim_str("x"), "x");
    assert_eq!(trim_str("   "), "");
}

#[test]
fn wmic_rows_yield_pid_and_command_line() {
    let row = parse_wmic_csv_row("NODE-1,\"C:\\App\\Antigravity.exe\" --flag,1234\r");
    let (pid, cmd) = row.unwrap();
    assert_eq!(pid, 1234);
    assert_eq!(cmd, "\"C:\\App\\Antigravity.exe\" --flag");

    assert!(parse_wmic_csv_row("Node,CommandLine,ProcessId").is_none());
    assert!(parse_wmic_csv_row("no commas here").is_none());
    assert!(parse_wmic_csv_row("a,,77").is_none());
}

#[test]
fn cache_keeps_the_latest_command_line_per_pid() {
    let mut cache = CmdlineCache::new();
    cache.insert(1, "first".into());
    cache.insert(2, "second".into());
    cache.insert(1, "replaced".into());
    assert_eq!(get_process_command_line(&cache, 1), Some(String::from("replaced")));
    assert_eq!(get_process_command_line(&cache, 2), Some(String::from("second")));
    assert_eq!(get_process_command_line(&cache, 3), None);
}

#[test]
fn text_helpers_behave_like_their_specifications() {
    assert!(contains_sub("hello world", "lo wo"));
    assert!(!contains_sub("hello", "world"));
    assert!(contains_sub("abc", ""));
    assert!(str_eq("same", "same"));
    assert!(!str_eq("same", "Same"));
    assert_eq!(lower_join(&vec![String::from("A"), String::from("B c")]), "a b c");
    assert!(bundle_match(
        "/Applications/Antigravity.app/Contents/MacOS/Electron",
        "/Applications/Antigravity.app"
    ));
    assert!(!bundle_match("/Applications/One.app/bin", "/Applications/Two.app/bin"));
}

#[test]
fn start_plans_resolve_executable_in_priority_order() {
    let mut inst = Instance::new("id".into(), "Work".into(), "/d/w".into());
    inst.antigravity_executable = Some("/custom/antigravity".into());
    let plan = start_instance(&inst, Some("/discovered/antigravity".into())).unwrap();
    assert_eq!(plan.program, "/custom/antigravity");
    assert_eq!(
        plan.args,
        vec![String::from("--user-data-dir"), String::from("/d/w")]
    );

    inst.antigravity_executable = None;
    let plan = start_instance(&inst, Some("/discovered/antigravity".into())).unwrap();
    assert_eq!(plan.program, "/discovered/antigravity");

    let err = start_instance(&inst, None).unwrap_err();
    assert_eq!(err.kind(), multi_instance::errors::ErrorKind::Launch);

    let plan = start_instance_with_args(
        &inst,
        vec![String::from("--saved")],
        Some("/discovered/antigravity".into()),
    )
    .unwrap();
    assert_eq!(plan.args, vec![String::from("--saved")]);
}

#[test]
fn global_start_plan_corrects_bundle_paths() {
    let manual = Some(String::from(
        "/Applications/Antigravity.app/Contents/MacOS/Electron",
    ));
    let plan = start_antigravity(Platform::MacOs, &manual, &None);
    assert_eq!(plan.program, "open");
    assert_eq!(
        plan.args,
        vec![String::from("-a"), String::from("/Applications/Antigravity.app")]
    );

    let plan = start_antigravity(Platform::MacOs, &None, &Some(vec![String::from("--x")]));
    assert_eq!(plan.program, "open");
    assert_eq!(
        plan.args,
        vec![String::from("-a"), String::from("Antigravity"), String::from("--x")]
    );

    let plan = start_antigravity(Platform::Linux, &None, &None);
    assert_eq!(plan.program, "antigravity");
    assert!(plan.args.is_empty());

    let plan = start_antigravity(Platform::Windows, &None, &None);
    assert_eq!(plan.program, "cmd");
    assert_eq!(
        plan.args,
        vec![String::from("/C"), String::from("start"), String::from("antigravity://")]
    );
}

#[test]
fn batched_query_output_fills_the_cache() {
    let output = "Node,CommandLine,ProcessId\r\n\
                  HOST,\"C:\\App\\Antigravity.exe\" --user-data-dir=C:\\W,100\r\n\
                  HOST,broken line without enough commas\r\n\
                  HOST,\"C:\\App\\Antigravity.exe\",200\r\n";
    let lines = split_lines(output);
    assert_eq!(lines.len(), 4);
    assert_eq!(lines[0], "Node,CommandLine,ProcessId");

    let cache = refresh_process_command_line_cache(output);
    assert_eq!(
        get_process_command_line(&cache, 100),
        Some(String::from("\"C:\\App\\Antigravity.exe\" --user-data-dir=C:\\W"))
    );
    assert_eq!(
        get_process_command_line(&cache, 200),
        Some(String::from("\"C:\\App\\Antigravity.exe\""))
    );
    assert_eq!(get_process_command_line(&cache, 300), None);
}
