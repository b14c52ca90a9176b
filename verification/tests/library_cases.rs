use easytier_manager::commands::{
    cli_output_response, error_response, is_cold_start, log_line, spawn_response,
};
use easytier_manager::decimal::{decimal_string, parse_u32_chars, parse_u64_chars};
use easytier_manager::digest::{check_archive_digest, compare_digest, normalize_sha256};
use easytier_manager::elevated::{
    validate_config_file_name,
    check_log_level, osascript_arguments, parse_core_pid, script_outcome, start_core_arguments,
    start_core_script, stop_core_arguments, stop_core_script, terminal_command_for,
    terminal_script,
};
use easytier_manager::install::{
    check_cli_version, cli_executable_name, core_executable_names, ensure_child_path,
    find_archive_entry, install_start, install_step, managed_cli_program, staging_dir_name,
    swap_start, swap_step, ArchiveEntry, InstallAction, InstallReport, SwapAction, SwapState,
};
use easytier_manager::path::{file_name_chars, path_starts_with_chars, same_path_chars, PathStyle};

const UNIX: PathStyle = PathStyle::Unix;
const WINDOWS: PathStyle = PathStyle::Windows;
use easytier_manager::process::{
    extract_toml_file_name, parse_process_line, parse_process_listing, split_first_field,
};
use easytier_manager::text::{chars_of, lines_of, trim_str};

fn chars(s: &str) -> Vec<char> {
    s.chars().collect()
}

fn file_name(s: &str) -> Option<String> {
    file_name_chars(UNIX, &chars(s)).map(|v| v.into_iter().collect())
}

const ABC_SHA256: &str = "ba7816bf8f01cfea414140de5dae2223b00361a396177a9cb410ff61f20015ad";

#[test]
fn sha256_digest_of_known_input_passes() {
    assert!(check_archive_digest(b"abc", ABC_SHA256).is_ok());
}

#[test]
fn sha256_mismatch_names_both_digests() {
    let err = check_archive_digest(b"abd", ABC_SHA256).unwrap_err();
    assert!(err.starts_with(&format!("SHA-256 mismatch: expected {ABC_SHA256}, received ")));
    assert_ne!(err, format!("SHA-256 mismatch: expected {ABC_SHA256}, received {ABC_SHA256}"));
    // The digest is not the hex of the input itself.
    assert!(check_archive_digest(b"abc", "616263").is_err());
}

#[test]
fn compare_digest_renders_lower_hex() {
    assert!(compare_digest(&[0x0a, 0x14, 0x1e], "0a141e").is_ok());
    assert_eq!(
        compare_digest(&[0xab, 0x01], "AB01").unwrap_err(),
        "SHA-256 mismatch: expected AB01, received ab01"
    );
}

#[test]
fn normalized_digest_is_stable() {
    let published = format!("sha256:{}", ABC_SHA256.to_uppercase());
    let once = normalize_sha256(&published).unwrap();
    assert_eq!(once, ABC_SHA256);
    assert_eq!(normalize_sha256(&once).unwrap(), once);
    assert!(check_archive_digest(b"abc", &once).is_ok());
}

#[test]
fn digest_errors_and_edges() {
    assert_eq!(
        normalize_sha256("abc").unwrap_err(),
        "release asset does not provide a valid SHA-256 digest"
    );
    assert!(normalize_sha256(&"a".repeat(63)).is_err());
    assert!(normalize_sha256(&"a".repeat(65)).is_err());
    assert!(normalize_sha256(&format!("SHA256:{}", "a".repeat(64))).is_err());
    assert!(normalize_sha256(&format!("sha256:sha256:{}", "a".repeat(64))).is_err());
    assert_eq!(normalize_sha256(&"F".repeat(64)).unwrap(), "f".repeat(64));
}

#[test]
fn decimal_round_trip() {
    for n in [0u64, 7, 10, 99, 100, 4294967295, 18446744073709551615] {
        let text = decimal_string(n);
        assert_eq!(text, n.to_string());
        assert_eq!(parse_u64_chars(&chars(&text)), Some(n));
    }
    assert_eq!(parse_u32_chars(&chars("+42")), Some(42));
    assert_eq!(parse_u32_chars(&chars("007")), Some(7));
    assert_eq!(parse_u32_chars(&chars("4294967296")), None);
    assert_eq!(parse_u32_chars(&chars("+")), None);
    assert_eq!(parse_u32_chars(&chars("-1")), None);
    assert_eq!(parse_u32_chars(&chars("")), None);
    assert_eq!(parse_u32_chars(&chars("1 ")), None);
    assert_eq!(parse_u64_chars(&chars("18446744073709551616")), None);
}

#[test]
fn trims_unicode_white_space() {
    assert_eq!(trim_str(" \t\u{3000}abc \n"), "abc");
    assert_eq!(trim_str("   "), "");
    assert_eq!(trim_str("a b"), "a b");
}

#[test]
fn splits_lines_like_std() {
    let text = "a\r\nb\n\nc\r";
    let got: Vec<String> = lines_of(&chars(text)).into_iter().map(|l| l.into_iter().collect()).collect();
    let want: Vec<String> = text.lines().map(str::to_string).collect();
    assert_eq!(got, want);
    assert!(lines_of(&chars("")).is_empty());
    assert_eq!(lines_of(&chars("x\n")).len(), 1);
}

#[test]
fn path_file_names_follow_std() {
    for p in ["office.toml", "a/b/c.toml", "a/b/", "/", "", ".", "..", "a/..", "a/.", "./a", "//x//y//"] {
        let want = std::path::Path::new(p).file_name().and_then(|n| n.to_str()).map(str::to_string);
        assert_eq!(file_name(p), want, "file name of {p:?}");
    }
}

#[test]
fn path_prefixes_are_by_component() {
    assert!(path_starts_with_chars(UNIX, &chars("/data/app/x"), &chars("/data/app")));
    assert!(path_starts_with_chars(UNIX, &chars("/data/app/"), &chars("/data/app")));
    assert!(!path_starts_with_chars(UNIX, &chars("/data/apple"), &chars("/data/app")));
    assert!(!path_starts_with_chars(UNIX, &chars("data/app"), &chars("/data")));
    assert!(same_path_chars(UNIX, &chars("/a//b/"), &chars("/a/b")));
    assert!(!same_path_chars(UNIX, &chars("/a/b"), &chars("/a/c")));
}

#[test]
fn confines_paths_to_the_data_directory() {
    assert_eq!(
        ensure_child_path(UNIX, Ok("/data".into()), Ok("/data/archive.zip".into())).unwrap(),
        "/data/archive.zip"
    );
    assert_eq!(
        ensure_child_path(UNIX, Ok("/data".into()), Ok("/database/x".into())).unwrap_err(),
        "path is outside the application data directory"
    );
    assert_eq!(
        ensure_child_path(UNIX, Err("gone".into()), Ok("/data/x".into())).unwrap_err(),
        "failed to resolve data directory: gone"
    );
    assert_eq!(
        ensure_child_path(UNIX, Ok("/data".into()), Err("missing".into())).unwrap_err(),
        "failed to resolve path: missing"
    );
}

#[test]
fn admits_only_the_managed_cli() {
    let managed = "/data/resource/current/easytier-cli".to_string();
    assert_eq!(managed_cli_program(UNIX, Ok(managed.clone()), Ok(managed.clone())).unwrap(), managed);
    assert_eq!(
        managed_cli_program(UNIX, Ok("/usr/bin/env".into()), Ok(managed.clone())).unwrap_err(),
        "CLI path is outside the managed core directory"
    );
    assert_eq!(
        managed_cli_program(UNIX, Err("x".into()), Ok(managed.clone())).unwrap_err(),
        "failed to resolve CLI path: x"
    );
    assert_eq!(
        managed_cli_program(UNIX, Ok(managed), Err("y".into())).unwrap_err(),
        "failed to resolve managed CLI path: y"
    );
}

#[test]
fn finds_archive_entries_in_order() {
    let entries = vec![
        ArchiveEntry::Named("docs/README".into()),
        ArchiveEntry::Named("bin/easytier-core".into()),
        ArchiveEntry::Named("bin/easytier-cli".into()),
    ];
    assert_eq!(find_archive_entry(UNIX, &entries, "easytier-cli").unwrap(), 2);
    assert_eq!(find_archive_entry(UNIX, &entries, "easytier-core").unwrap(), 1);
    assert_eq!(
        find_archive_entry(UNIX, &entries, "easytier-web").unwrap_err(),
        "easytier-web is missing from archive"
    );
    let unsafe_first = vec![ArchiveEntry::UnsafePath, ArchiveEntry::Named("easytier-cli".into())];
    assert_eq!(
        find_archive_entry(UNIX, &unsafe_first, "easytier-cli").unwrap_err(),
        "core archive contains an unsafe path"
    );
    let unreadable = vec![ArchiveEntry::Unreadable("bad header".into())];
    assert_eq!(
        find_archive_entry(UNIX, &unreadable, "easytier-cli").unwrap_err(),
        "failed to inspect core archive: bad header"
    );
}

#[test]
fn names_the_install_artifacts() {
    assert_eq!(core_executable_names(false), vec!["easytier-core", "easytier-cli"]);
    assert_eq!(core_executable_names(true), vec!["easytier-core.exe", "easytier-cli.exe"]);
    assert_eq!(cli_executable_name(true), "easytier-cli.exe");
    assert_eq!(staging_dir_name(4242), ".install-4242");
}

#[test]
fn reads_cli_version_runs() {
    assert_eq!(check_cli_version(true, " easytier-cli 2.4.5\n", "").unwrap(), "easytier-cli 2.4.5");
    assert_eq!(
        check_cli_version(false, "", "  bad binary \n").unwrap_err(),
        "easytier-cli validation failed: bad binary"
    );
}

fn run_swap(reports: &[Result<bool, String>]) -> (Vec<&'static str>, Result<(), String>) {
    let mut names = Vec::new();
    let (mut state, mut action) = swap_start();
    let mut i = 0;
    loop {
        match action {
            SwapAction::Done(r) => return (names, r),
            SwapAction::CheckBackup => names.push("check-backup"),
            SwapAction::RemoveBackup => names.push("remove-backup"),
            SwapAction::CheckCurrent => names.push("check-current"),
            SwapAction::MoveCurrentToBackup => names.push("preserve"),
            SwapAction::MoveStagingToCurrent => names.push("activate"),
            SwapAction::RestoreBackup => names.push("restore"),
            SwapAction::DiscardBackup => names.push("discard"),
        }
        let (s, a) = swap_step(state, reports[i].clone());
        state = s;
        action = a;
        i += 1;
    }
}

/// Runs an installation on the given step reports: the steps asked for,
/// and the final clean-up and outcome.
fn run_install(reports: Vec<InstallReport>) -> (Vec<&'static str>, (bool, bool, Result<String, String>)) {
    let mut names = Vec::new();
    let (mut state, mut action) = install_start();
    let mut reports = reports.into_iter();
    loop {
        match action {
            InstallAction::Finish { remove_archive, clear_staging, outcome } => {
                return (names, (remove_archive, clear_staging, outcome))
            }
            InstallAction::VerifyArchive => names.push("verify"),
            InstallAction::PrepareStaging => names.push("stage"),
            InstallAction::Unpack => names.push("unpack"),
        }
        let (s, a) = install_step(state, reports.next().unwrap());
        state = s;
        action = a;
    }
}

#[test]
fn install_removes_archive_after_success() {
    let (steps, end) = run_install(vec![
        InstallReport::Succeeded(String::new()),
        InstallReport::Succeeded(String::new()),
        InstallReport::Succeeded("easytier-cli 2.4.5".to_string()),
    ]);
    assert_eq!(steps, vec!["verify", "stage", "unpack"]);
    assert_eq!(end, (true, true, Ok("easytier-cli 2.4.5".to_string())));
}

#[test]
fn install_removes_archive_after_digest_mismatch() {
    let (steps, end) = run_install(vec![InstallReport::Mismatch("SHA256 mismatch".to_string())]);
    assert_eq!(steps, vec!["verify"]);
    assert_eq!(end, (true, false, Err("SHA256 mismatch".to_string())));
}

#[test]
fn install_keeps_archive_after_other_failures() {
    let (_, end) = run_install(vec![InstallReport::Failed("failed to read downloaded archive".to_string())]);
    assert_eq!(end, (false, false, Err("failed to read downloaded archive".to_string())));
    let (steps, end) = run_install(vec![
        InstallReport::Succeeded(String::new()),
        InstallReport::Failed("failed to create staging directory".to_string()),
    ]);
    assert_eq!(steps, vec!["verify", "stage"]);
    assert_eq!(end, (false, false, Err("failed to create staging directory".to_string())));
    let (steps, end) = run_install(vec![
        InstallReport::Succeeded(String::new()),
        InstallReport::Succeeded(String::new()),
        InstallReport::Failed("invalid core archive".to_string()),
    ]);
    assert_eq!(steps, vec!["verify", "stage", "unpack"]);
    assert_eq!(end, (false, true, Err("invalid core archive".to_string())));
}

#[test]
fn swap_with_existing_core_keeps_a_backup_until_done() {
    let (steps, r) = run_swap(&[Ok(false), Ok(true), Ok(true), Ok(true), Ok(true), Ok(true)]);
    assert_eq!(steps, vec!["check-backup", "check-current", "preserve", "activate", "check-backup", "discard"]);
    assert!(r.is_ok());
    let _ = SwapState::Finished;
}

#[test]
fn swap_restores_backup_when_activation_fails() {
    let (steps, r) = run_swap(&[Ok(true), Ok(true), Ok(true), Ok(true), Err("busy".into()), Ok(true), Ok(true)]);
    assert_eq!(
        steps,
        vec!["check-backup", "remove-backup", "check-current", "preserve", "activate", "check-backup", "restore"]
    );
    assert_eq!(r.unwrap_err(), "failed to activate installed core: busy");
}

#[test]
fn swap_reports_failed_preparation() {
    let (_, r) = run_swap(&[Ok(true), Err("denied".into())]);
    assert_eq!(r.unwrap_err(), "failed to remove previous backup: denied");
    let (_, r) = run_swap(&[Ok(false), Ok(true), Err("locked".into())]);
    assert_eq!(r.unwrap_err(), "failed to preserve current core: locked");
    let (steps, r) = run_swap(&[Ok(false), Ok(false), Ok(true), Ok(false)]);
    assert_eq!(steps, vec!["check-backup", "check-current", "activate", "check-backup"]);
    assert!(r.is_ok());
}

#[test]
fn checks_launch_parameters() {
    for level in ["off", "error", "warn", "info", "debug", "trace"] {
        assert!(check_log_level(level).is_ok());
    }
    assert_eq!(check_log_level("verbose").unwrap_err(), "invalid log level");
    assert_eq!(check_log_level("INFO").unwrap_err(), "invalid log level");
    let args = start_core_arguments("core".into(), "logs".into(), "info".into(), "cfg".into(), None);
    assert_eq!(args, vec!["core", "logs", "info", "cfg", ""]);
    let args = start_core_arguments("core".into(), "logs".into(), "info".into(), "cfg".into(), Some("0.0.0.0:15888".into()));
    assert_eq!(args[4], "0.0.0.0:15888");
    assert_eq!(start_core_script().len(), 10);
    assert_eq!(start_core_script()[0], "on run argv");
}

#[test]
fn reads_core_pid_replies() {
    assert_eq!(parse_core_pid("4321").unwrap(), 4321);
    assert_eq!(parse_core_pid(" 17\n").unwrap(), 17);
    assert_eq!(
        parse_core_pid("oops").unwrap_err(),
        "macOS did not return a valid core PID: oops"
    );
}

#[test]
fn builds_stop_requests() {
    assert_eq!(stop_core_arguments(812, true).unwrap(), vec!["-KILL", "812"]);
    assert_eq!(stop_core_arguments(812, false).unwrap(), vec!["-TERM", "812"]);
    assert_eq!(stop_core_arguments(1, false).unwrap_err(), "invalid process id");
    assert_eq!(stop_core_arguments(0, true).unwrap_err(), "invalid process id");
    assert_eq!(stop_core_script().len(), 5);
}

#[test]
fn builds_terminal_requests() {
    assert_eq!(terminal_command_for("ping", Some("10.0.0.1".into()), None).unwrap(), "ping 10.0.0.1");
    assert_eq!(
        terminal_command_for("telnet", Some("10.0.0.1".into()), None).unwrap_err(),
        "port is required for telnet"
    );
    assert_eq!(terminal_command_for("ssh", None, None).unwrap_err(), "invalid node IP address");
    assert_eq!(
        terminal_command_for("rdp", Some("10.0.0.1".into()), None).unwrap_err(),
        "unsupported terminal action"
    );
    assert_eq!(terminal_script().len(), 7);
}

#[test]
fn assembles_osascript_argument_lists() {
    let lines = vec!["on run argv".to_string(), "end run".to_string()];
    let args = vec!["a".to_string(), "b".to_string()];
    assert_eq!(
        osascript_arguments(&lines, &args),
        vec!["-e", "on run argv", "-e", "end run", "--", "a", "b"]
    );
    assert_eq!(osascript_arguments(&[], &[]), vec!["--"]);
    assert_eq!(script_outcome(true, " 12 \n", "").unwrap(), "12");
    assert_eq!(script_outcome(false, "", " denied\n").unwrap_err(), "denied");
}

#[test]
fn splits_first_fields() {
    assert_eq!(split_first_field("123 rest of it"), Some(("123", " rest of it")));
    assert_eq!(split_first_field("single"), None);
    assert_eq!(split_first_field("\tlead"), Some(("", "\tlead")));
}

#[test]
fn extracts_config_file_names() {
    assert_eq!(extract_toml_file_name("core -c /x/y/a.toml --other").as_deref(), Some("a.toml"));
    assert_eq!(extract_toml_file_name("core --config-file='/x/My.TOML'").as_deref(), Some("My.TOML"));
    assert_eq!(extract_toml_file_name("core --config-file = \"net.toml\"").as_deref(), Some("net.toml"));
    assert_eq!(extract_toml_file_name("core --config-file /x/a.json"), None);
    assert_eq!(extract_toml_file_name("core --network"), None);
}

#[test]
fn reads_whole_process_listings() {
    let listing = "  1 512 /sbin/launchd /sbin/launchd\n  77 10 /opt/easytier-core /opt/easytier-core --config-file net.toml\n abc 1 easytier-core easytier-core\n 78 x easytier-core\n 99 1 /a/easytier-core /a/easytier-core\n";
    let procs = parse_process_listing(listing);
    assert_eq!(procs.len(), 2);
    assert_eq!(procs[0].pid, 77);
    assert_eq!(procs[0].memory, 10 * 1024);
    assert_eq!(procs[0].config_file_name.as_deref(), Some("net"));
    assert_eq!(procs[1].pid, 99);
    assert_eq!(procs[1].file_name, None);
    assert_eq!(procs[1].config_file_name, None);
    // `-c` counts only as an argument of its own, not inside `easytier-core`.
    let short = parse_process_line("7 1 /opt/easytier-core /opt/easytier-core -c net.toml").unwrap();
    assert_eq!(short.file_name.as_deref(), Some("net.toml"));
    assert_eq!(short.config_file_name.as_deref(), Some("net"));
}

#[test]
fn saturates_huge_memory_counts() {
    let p = parse_process_line("5 18446744073709551615 easytier-core easytier-core").unwrap();
    assert_eq!(p.memory, u64::MAX);
    // The command text keeps the white space that separated it from the
    // memory column.
    assert_eq!(p.name, " easytier-core");
    assert_eq!(p.path, " easytier-core");
}

#[test]
fn decides_cold_starts() {
    assert!(is_cold_start(None, 10));
    assert!(is_cold_start(Some(0), 10));
    assert!(is_cold_start(Some(9), 10));
    assert!(!is_cold_start(Some(10), 10));
}

#[test]
fn formats_command_replies() {
    assert_eq!(error_response("boom"), "Error: boom");
    assert_eq!(cli_output_response(Ok("peers".into())), "peers");
    assert_eq!(cli_output_response(Err("bad byte".into())), "Error decoding output: bad byte");
    assert_eq!(spawn_response(Ok(31337)), "31337");
    assert_eq!(spawn_response(Err("no such file".into())), "Error: no such file");
}

#[test]
fn formats_log_lines() {
    assert_eq!(
        log_line("2024-01-02 03:04:05", "INFO", "easytier_manager@1.0", "started"),
        "2024-01-02 03:04:05 INFO  [easytier_manager]: started"
    );
    assert_eq!(log_line("d", "ERROR", "t", "m"), "d ERROR [t]: m");
    let _ = chars_of("x");
}

#[test]
fn config_names_are_plain_toml_names() {
    assert!(validate_config_file_name(".toml").is_ok());
    assert!(validate_config_file_name("my net.toml").is_ok());
    assert!(validate_config_file_name("./office.toml").is_err());
    assert!(validate_config_file_name("cfg/office.toml").is_err());
    assert!(validate_config_file_name("office.toml/").is_err());
    assert!(validate_config_file_name("office.TOML").is_err());
    assert!(validate_config_file_name("").is_err());
}

#[test]
fn listed_config_names_can_be_launched() {
    let line = "9 1 /x/easytier-core /x/easytier-core --config-file /Users/a/Application Support/cfg/home net.toml";
    let p = parse_process_line(line).unwrap();
    let name = p.file_name.unwrap();
    assert_eq!(name, "home net.toml");
    assert!(validate_config_file_name(&name).is_ok());
}

#[test]
fn file_names_are_their_own_file_names() {
    for p in ["/a/b/c.toml", "x", "a/b/..", "a//b//", "./c"] {
        if let Some(n) = file_name(p) {
            assert!(!n.contains('/'));
            assert_eq!(file_name(&n), Some(n.clone()));
        }
    }
}

#[test]
fn data_directory_is_inside_itself() {
    assert_eq!(ensure_child_path(UNIX, Ok("/data".into()), Ok("/data".into())).unwrap(), "/data");
}

#[test]
fn config_flag_starts_an_argument() {
    assert_eq!(extract_toml_file_name("easytier-core -c office.toml").as_deref(), Some("office.toml"));
    assert_eq!(extract_toml_file_name("easytier-core -c=office.toml").as_deref(), Some("office.toml"));
    assert_eq!(extract_toml_file_name("core -cfoo.toml").as_deref(), Some("foo.toml"));
    assert_eq!(extract_toml_file_name("-cfoo.toml").as_deref(), Some("foo.toml"));
    assert_eq!(extract_toml_file_name("core x-c a.toml"), None);
    assert_eq!(extract_toml_file_name("-c"), None);
    assert_eq!(
        extract_toml_file_name("core -c a.toml --config-file b.toml").as_deref(),
        Some("b.toml")
    );
    assert_eq!(
        extract_toml_file_name("core --config-file-extra a.toml").as_deref(),
        Some("-extra a.toml")
    );
}

#[test]
fn windows_paths_use_both_separators() {
    let data = r"\\?\C:\Users\me\AppData\Roaming\easytier";
    let archive = r"\\?\C:\Users\me\AppData\Roaming\easytier\core.zip";
    assert_eq!(ensure_child_path(WINDOWS, Ok(data.into()), Ok(archive.into())).unwrap(), archive);
    assert!(ensure_child_path(UNIX, Ok(data.into()), Ok(archive.into())).is_err());
    assert!(ensure_child_path(WINDOWS, Ok(data.into()), Ok(r"\\?\C:\Users\me\AppData\Roaming\easytierx\a".into())).is_err());
    let entries = vec![
        ArchiveEntry::Named(r"bin\easytier-core.exe".into()),
        ArchiveEntry::Named("bin/easytier-cli.exe".into()),
    ];
    assert_eq!(find_archive_entry(WINDOWS, &entries, "easytier-core.exe").unwrap(), 0);
    assert_eq!(find_archive_entry(WINDOWS, &entries, "easytier-cli.exe").unwrap(), 1);
    assert!(find_archive_entry(UNIX, &entries, "easytier-core.exe").is_err());
    let win_name: Option<String> = file_name_chars(WINDOWS, &chars(r"C:\a\b.toml")).map(|v| v.into_iter().collect());
    assert_eq!(win_name.as_deref(), Some("b.toml"));
    assert!(same_path_chars(WINDOWS, &chars(r"C:\a/b"), &chars(r"C:\a\b")));
}

#[test]
fn terminal_hosts_are_address_text() {
    assert_eq!(
        terminal_command_for("ssh", Some("fe80::1".into()), None).unwrap(),
        "ssh root@fe80::1"
    );
    assert_eq!(
        terminal_command_for("ping", Some("127.0.0.1; whoami".into()), None).unwrap_err(),
        "invalid node IP address"
    );
    assert!(terminal_command_for("ping", Some("".into()), None).is_err());
    assert!(terminal_command_for("ping", Some("$(id)".into()), None).is_err());
}
