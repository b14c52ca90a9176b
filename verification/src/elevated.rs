//! The macOS side of core control: checks on what goes to the elevated
//! launcher, the AppleScript sources and argument lists it runs with, and
//! how its replies are read.
use vstd::prelude::*;
use crate::path::{PathStyle, components, file_name, file_name_chars, is_plain_name, lemma_file_name_is_plain, lemma_plain_name_components, Component};
use crate::process::toml_suffix;
use crate::decimal::{decimal, decimal_string, parse_u32, parse_u32_chars};
use crate::text::{chars_equal, chars_of, concat, ends_with_chars, str_equal, string_views, trim, trim_chars, trim_str, CharClass};

verus! {

/// A configuration file name that may be handed to the launcher: a plain
/// file name (its own last path component) ending in `.toml`.
pub open spec fn is_config_file_name(value: Seq<char>) -> bool {
    file_name(PathStyle::Unix, value) == Some(value) && toml_suffix().is_suffix_of(value)
}

/// The configuration names accepted are exactly the plain names (non-empty,
/// without `/`, neither `.` nor `..`) that end in `.toml`.
pub proof fn lemma_config_file_name_is_plain(value: Seq<char>)
    ensures
        is_config_file_name(value) <==> is_plain_name(PathStyle::Unix, value) && toml_suffix().is_suffix_of(value),
{
    if file_name(PathStyle::Unix, value) == Some(value) {
        lemma_file_name_is_plain(PathStyle::Unix, value);
    }
    if is_plain_name(PathStyle::Unix, value) {
        lemma_plain_name_components(PathStyle::Unix, value);
        assert(components(PathStyle::Unix, value).last() == Component::Normal(value));
    }
}

/// A configuration name read off a running core's command line is accepted
/// for a launch whenever its `.toml` ending is in lower case.
pub proof fn lemma_listed_config_is_launchable(command_line: Seq<char>)
    requires
        crate::process::toml_file_name(command_line) is Some,
        toml_suffix().is_suffix_of(crate::process::toml_file_name(command_line)->Some_0),
    ensures
        is_config_file_name(crate::process::toml_file_name(command_line)->Some_0),
{
    crate::process::lemma_toml_file_name_shape(command_line);
    lemma_config_file_name_is_plain(crate::process::toml_file_name(command_line)->Some_0);
}

/// Accepts a plain `*.toml` file name; anything with a directory part, or
/// another extension, is refused.
pub fn validate_config_file_name(value: &str) -> (r: Result<(), String>)
    ensures
        r is Ok <==> is_config_file_name(value@),
        r matches Err(e) ==> e@ == "invalid configuration file name"@,
{
    let v = chars_of(value);
    let name_ok = match file_name_chars(PathStyle::Unix, &v) {
        Some(name) => chars_equal(&name, &v),
        None => false,
    };
    let suffix: [char; 5] = ['.', 't', 'o', 'm', 'l'];
    assert(suffix@ =~= toml_suffix());
    if !name_ok || !ends_with_chars(&v, &suffix) {
        return Err(String::from_str("invalid configuration file name"));
    }
    Ok(())
}


/// The log levels the core accepts.
pub open spec fn is_log_level(level: Seq<char>) -> bool {
    ||| level == "off"@
    ||| level == "error"@
    ||| level == "warn"@
    ||| level == "info"@
    ||| level == "debug"@
    ||| level == "trace"@
}

/// Accepts one of `off`, `error`, `warn`, `info`, `debug`, `trace`.
pub fn check_log_level(level: &str) -> (r: Result<(), String>)
    ensures
        r is Ok <==> is_log_level(level@),
        r matches Err(e) ==> e@ == "invalid log level"@,
{
    if str_equal(level, "off") || str_equal(level, "error") || str_equal(level, "warn")
        || str_equal(level, "info") || str_equal(level, "debug") || str_equal(level, "trace") {
        Ok(())
    } else {
        Err(String::from_str("invalid log level"))
    }
}

/// The arguments the launch script reads as `item 1` to `item 5` of
/// `argv`: core path, log directory, log level, configuration path and the
/// RPC portal (empty when none).
pub fn start_core_arguments(
    core: String,
    logs: String,
    log_level: String,
    config: String,
    rpc_portal: Option<String>,
) -> (r: Vec<String>)
    ensures
        string_views(r@) == seq![
            core@,
            logs@,
            log_level@,
            config@,
            match rpc_portal {
                Some(p) => p@,
                None => Seq::<char>::empty(),
            },
        ],
{
    let portal = match rpc_portal {
        Some(p) => p,
        None => String::new(),
    };
    let mut r: Vec<String> = Vec::new();
    r.push(core);
    r.push(logs);
    r.push(log_level);
    r.push(config);
    r.push(portal);
    assert(string_views(r@) =~= seq![
        core@,
        logs@,
        log_level@,
        config@,
        match rpc_portal {
            Some(p) => p@,
            None => Seq::<char>::empty(),
        },
    ]);
    r
}

/// Builds a vector of `String`s from literal lines.
fn owned_lines(lines: &[&str]) -> (r: Vec<String>)
    ensures
        string_views(r@) == lines@.map_values(|l: &str| l@),
{
    let mut r: Vec<String> = Vec::new();
    let mut i: usize = 0;
    while i < lines.len()
        invariant
            i <= lines@.len(),
            string_views(r@) == lines@.take(i as int).map_values(|l: &str| l@),
        decreases lines@.len() - i,
    {
        let ghost old_r = r@;
        r.push(String::from_str(lines[i]));
        assert(string_views(r@) =~= string_views(old_r).push(lines@[i as int]@));
        assert(lines@.take(i + 1).map_values(|l: &str| l@) =~= lines@.take(i as int).map_values(
            |l: &str| l@,
        ).push(lines@[i as int]@));
        i = i + 1;
    }
    assert(lines@.take(lines@.len() as int) =~= lines@);
    r
}

/// The AppleScript that starts the core with administrator rights and
/// returns its pid.
pub open spec fn start_core_script_lines() -> Seq<Seq<char>> {
    seq![
        "on run argv"@,
        "set corePath to quoted form of item 1 of argv"@,
        "set logPath to quoted form of item 2 of argv"@,
        "set logLevel to quoted form of item 3 of argv"@,
        "set configPath to quoted form of item 4 of argv"@,
        "set rpcPortal to item 5 of argv"@,
        "set commandLine to corePath & \" --file-log-dir \" & logPath & \" --file-log-level \" & logLevel & \" --file-log-size 10 --file-log-count 10 --config-file \" & configPath"@,
        "if rpcPortal is not \"\" then set commandLine to commandLine & \" --rpc-portal \" & quoted form of rpcPortal"@,
        "return do shell script commandLine & \" >/dev/null 2>&1 & echo $!\" with administrator privileges"@,
        "end run"@,
    ]
}

/// The lines of [`start_core_script_lines`].
pub fn start_core_script() -> (r: Vec<String>)
    ensures
        string_views(r@) == start_core_script_lines(),
{
    let lines: [&str; 10] = [
        "on run argv",
        "set corePath to quoted form of item 1 of argv",
        "set logPath to quoted form of item 2 of argv",
        "set logLevel to quoted form of item 3 of argv",
        "set configPath to quoted form of item 4 of argv",
        "set rpcPortal to item 5 of argv",
        "set commandLine to corePath & \" --file-log-dir \" & logPath & \" --file-log-level \" & logLevel & \" --file-log-size 10 --file-log-count 10 --config-file \" & configPath",
        "if rpcPortal is not \"\" then set commandLine to commandLine & \" --rpc-portal \" & quoted form of rpcPortal",
        "return do shell script commandLine & \" >/dev/null 2>&1 & echo $!\" with administrator privileges",
        "end run",
    ];
    let r = owned_lines(&lines);
    assert(lines@.map_values(|l: &str| l@) =~= start_core_script_lines());
    r
}


/// What `parse_core_pid` returns for the launcher's reply.
pub open spec fn core_pid_reply(output: Seq<char>) -> Result<u32, Seq<char>> {
    match parse_u32(trim(output)) {
        Some(pid) => Ok(pid),
        None => Err("macOS did not return a valid core PID: "@ + output),
    }
}

/// The view of a `Result<u32, String>`.
pub open spec fn pid_result_view(r: Result<u32, String>) -> Result<u32, Seq<char>> {
    match r {
        Ok(p) => Ok(p),
        Err(e) => Err(e@),
    }
}

/// Reads the pid that the launch script printed.
pub fn parse_core_pid(output: &str) -> (r: Result<u32, String>)
    ensures
        pid_result_view(r) == core_pid_reply(output@),
{
    let chars = chars_of(output);
    let t = trim_chars(&chars, CharClass::WhiteSpace);
    match parse_u32_chars(&t) {
        Some(pid) => Ok(pid),
        None => Err(concat(String::from_str("macOS did not return a valid core PID: "), output)),
    }
}

/// What `stop_core_arguments` returns: the signal name and the pid, for
/// any pid other than 0 and 1.
pub open spec fn stop_arguments(pid: u32, force: bool) -> Result<Seq<Seq<char>>, Seq<char>> {
    if pid <= 1 {
        Err("invalid process id"@)
    } else {
        Ok(seq![if force { "-KILL"@ } else { "-TERM"@ }, decimal(pid as nat)])
    }
}

/// The arguments of the stop script: `-KILL` (forced) or `-TERM`, and the
/// pid; pids 0 and 1 are refused.
pub fn stop_core_arguments(pid: u32, force: bool) -> (r: Result<Vec<String>, String>)
    ensures
        match r {
            Ok(v) => stop_arguments(pid, force) == Ok::<Seq<Seq<char>>, Seq<char>>(string_views(v@)),
            Err(e) => stop_arguments(pid, force) == Err::<Seq<Seq<char>>, Seq<char>>(e@),
        },
{
    if pid <= 1 {
        return Err(String::from_str("invalid process id"));
    }
    let signal = if force {
        String::from_str("-KILL")
    } else {
        String::from_str("-TERM")
    };
    let mut v: Vec<String> = Vec::new();
    v.push(signal);
    v.push(decimal_string(pid as u64));
    assert(string_views(v@) =~= seq![if force { "-KILL"@ } else { "-TERM"@ }, decimal(pid as nat)]);
    Ok(v)
}

/// The AppleScript that signals a process with administrator rights.
pub open spec fn stop_core_script_lines() -> Seq<Seq<char>> {
    seq![
        "on run argv"@,
        "set signalName to item 1 of argv"@,
        "set processId to item 2 of argv"@,
        "return do shell script \"/bin/kill \" & signalName & \" \" & processId with administrator privileges"@,
        "end run"@,
    ]
}

/// The lines of [`stop_core_script_lines`].
pub fn stop_core_script() -> (r: Vec<String>)
    ensures
        string_views(r@) == stop_core_script_lines(),
{
    let lines: [&str; 5] = [
        "on run argv",
        "set signalName to item 1 of argv",
        "set processId to item 2 of argv",
        "return do shell script \"/bin/kill \" & signalName & \" \" & processId with administrator privileges",
        "end run",
    ];
    let r = owned_lines(&lines);
    assert(lines@.map_values(|l: &str| l@) =~= stop_core_script_lines());
    r
}

/// A character that the text of an IP address can hold: an ASCII hex
/// digit, `.` or `:`.
pub open spec fn is_address_char(c: char) -> bool {
    crate::text::is_hex_digit(c) || c == '.' || c == ':'
}

/// Text made only of address characters, and not empty.
pub open spec fn is_address_text(h: Seq<char>) -> bool {
    h.len() > 0 && forall|i: int| 0 <= i < h.len() ==> is_address_char(#[trigger] h[i])
}

fn address_text(h: &str) -> (r: bool)
    ensures
        r == is_address_text(h@),
{
    let v = chars_of(h);
    if v.len() == 0 {
        return false;
    }
    let mut i: usize = 0;
    while i < v.len()
        invariant
            v@ == h@,
            i <= v@.len(),
            forall|k: int| 0 <= k < i ==> is_address_char(#[trigger] v@[k]),
        decreases v@.len() - i,
    {
        let c = v[i];
        if !(('0' <= c && c <= '9') || ('a' <= c && c <= 'f') || ('A' <= c && c <= 'F') || c == '.'
            || c == ':') {
            assert(!is_address_char(v@[i as int]));
            return false;
        }
        i = i + 1;
    }
    true
}

/// The shell command that the terminal runs for an action on a node whose
/// address reads as `host` (`None` where the text is no IP address). Text
/// with anything but hex digits, `.` and `:` is refused as no address, so
/// nothing else reaches the command.
pub open spec fn terminal_command(action: Seq<char>, host: Option<Seq<char>>, port: Option<u16>) -> Result<Seq<char>, Seq<char>> {
    match host {
        None => Err("invalid node IP address"@),
        Some(h) => if !is_address_text(h) {
            Err("invalid node IP address"@)
        } else if action == "ping"@ {
            Ok("ping "@ + h)
        } else if action == "ssh"@ {
            Ok("ssh root@"@ + h)
        } else if action == "telnet"@ {
            match port {
                Some(p) => Ok("nc -v "@ + h + " "@ + decimal(p as nat)),
                None => Err("port is required for telnet"@),
            }
        } else {
            Err("unsupported terminal action"@)
        },
    }
}

/// A character that may stand in a terminal command: an ASCII letter or
/// digit, a space, `.`, `:`, `@` or `-`.
pub open spec fn is_command_char(c: char) -> bool {
    ('a' <= c && c <= 'z') || ('A' <= c && c <= 'Z') || ('0' <= c && c <= '9') || c == ' ' || c
        == '.' || c == ':' || c == '@' || c == '-'
}

/// A terminal command is made only of letters, digits, spaces, `.`, `:`,
/// `@` and `-`, whatever host text it was asked for: no shell
/// metacharacter from the host reaches the terminal.
pub proof fn lemma_terminal_command_is_plain(action: Seq<char>, host: Option<Seq<char>>, port: Option<u16>)
    requires
        terminal_command(action, host, port) is Ok,
    ensures
        forall|i: int| 0 <= i < terminal_command(action, host, port)->Ok_0.len()
            ==> is_command_char(#[trigger] terminal_command(action, host, port)->Ok_0[i]),
{
    reveal_strlit("ping ");
    reveal_strlit("ssh root@");
    reveal_strlit("nc -v ");
    reveal_strlit(" ");
    reveal_strlit("ping");
    reveal_strlit("ssh");
    reveal_strlit("telnet");
    let h = host->Some_0;
    let cmd = terminal_command(action, host, port)->Ok_0;
    assert forall|i: int| 0 <= i < h.len() implies is_command_char(#[trigger] h[i]) by {
        assert(is_address_char(h[i]));
    }
    assert("telnet"@.len() == 6 && "ping"@.len() == 4 && "ssh"@.len() == 3);
    if action == "telnet"@ {
        assert(action != "ping"@ && action != "ssh"@);
        let p = port->Some_0;
        crate::decimal::lemma_decimal_facts(p as nat);
        let d = decimal(p as nat);
        assert forall|i: int| 0 <= i < d.len() implies is_command_char(#[trigger] d[i]) by {
            assert(crate::text::is_digit(d[i]));
        }
        let pre = "nc -v "@ + h + " "@;
        assert(cmd == pre + d);
        assert forall|i: int| 0 <= i < cmd.len() implies is_command_char(#[trigger] cmd[i]) by {
            if i < 6 {
                assert(cmd[i] == "nc -v "@[i]);
            } else if i < 6 + h.len() {
                assert(cmd[i] == h[i - 6]);
            } else if i < 7 + h.len() {
                assert(cmd[i] == ' ');
            } else {
                assert(cmd[i] == d[i - 7 - h.len()]);
            }
        }
    } else if action == "ping"@ {
        assert forall|i: int| 0 <= i < cmd.len() implies is_command_char(#[trigger] cmd[i]) by {
            if i < 5 {
                assert(cmd[i] == "ping "@[i]);
            } else {
                assert(cmd[i] == h[i - 5]);
            }
        }
    } else {
        assert forall|i: int| 0 <= i < cmd.len() implies is_command_char(#[trigger] cmd[i]) by {
            if i < 9 {
                assert(cmd[i] == "ssh root@"@[i]);
            } else {
                assert(cmd[i] == h[i - 9]);
            }
        }
    }
}

/// Builds the terminal command for `ping`, `ssh` or `telnet` on a node;
/// `host` is the node address as `IpAddr` displays it once parsed, or
/// `None` where the given text did not parse as an IP address. Whatever
/// text is given, the command holds no host character other than hex
/// digits, `.` and `:`.
pub fn terminal_command_for(action: &str, host: Option<String>, port: Option<u16>) -> (r: Result<String, String>)
    ensures
        crate::digest::result_view(r) == terminal_command(
            action@,
            match host {
                Some(h) => Some(h@),
                None => None,
            },
            port,
        ),
        r is Ok ==> (host matches Some(h) && is_address_text(h@)),
{
    let h = match host {
        Some(h) => h,
        None => {
            return Err(String::from_str("invalid node IP address"));
        },
    };
    if !address_text(h.as_str()) {
        return Err(String::from_str("invalid node IP address"));
    }
    if str_equal(action, "ping") {
        Ok(concat(String::from_str("ping "), h.as_str()))
    } else if str_equal(action, "ssh") {
        Ok(concat(String::from_str("ssh root@"), h.as_str()))
    } else if str_equal(action, "telnet") {
        match port {
            Some(p) => {
                let s = concat(String::from_str("nc -v "), h.as_str());
                let s = concat(s, " ");
                let ps = decimal_string(p as u64);
                Ok(concat(s, ps.as_str()))
            },
            None => Err(String::from_str("port is required for telnet")),
        }
    } else {
        Err(String::from_str("unsupported terminal action"))
    }
}

/// The AppleScript that opens Terminal and runs one command there.
pub open spec fn terminal_script_lines() -> Seq<Seq<char>> {
    seq![
        "on run argv"@,
        "set commandText to item 1 of argv"@,
        "tell application \"Terminal\""@,
        "activate"@,
        "do script commandText"@,
        "end tell"@,
        "end run"@,
    ]
}

/// The lines of [`terminal_script_lines`].
pub fn terminal_script() -> (r: Vec<String>)
    ensures
        string_views(r@) == terminal_script_lines(),
{
    let lines: [&str; 7] = [
        "on run argv",
        "set commandText to item 1 of argv",
        "tell application \"Terminal\"",
        "activate",
        "do script commandText",
        "end tell",
        "end run",
    ];
    let r = owned_lines(&lines);
    assert(lines@.map_values(|l: &str| l@) =~= terminal_script_lines());
    r
}

/// `-e` before each script line, then `--`, then the script's arguments.
pub open spec fn osascript_argv(lines: Seq<Seq<char>>, args: Seq<Seq<char>>) -> Seq<Seq<char>>
    decreases lines.len(),
{
    if lines.len() == 0 {
        seq!["--"@] + args
    } else {
        seq!["-e"@, lines[0]] + osascript_argv(lines.drop_first(), args)
    }
}

/// The argument list of `/usr/bin/osascript` for a script and its
/// arguments.
pub fn osascript_arguments(lines: &[String], args: &[String]) -> (r: Vec<String>)
    ensures
        string_views(r@) == osascript_argv(string_views(lines@), string_views(args@)),
{
    let mut r: Vec<String> = Vec::new();
    let ghost ls = string_views(lines@);
    let ghost xs = string_views(args@);
    let mut i: usize = 0;
    assert(ls.skip(0) =~= ls);
    assert(string_views(r@) + osascript_argv(ls, xs) =~= osascript_argv(ls, xs));
    while i < lines.len()
        invariant
            i <= lines@.len(),
            ls == string_views(lines@),
            xs == string_views(args@),
            osascript_argv(ls, xs) == string_views(r@) + osascript_argv(ls.skip(i as int), xs),
        decreases lines@.len() - i,
    {
        let ghost old_r = r@;
        r.push(String::from_str("-e"));
        r.push(lines[i].clone());
        assert(ls.skip(i as int).drop_first() =~= ls.skip(i + 1));
        assert(string_views(r@) =~= string_views(old_r) + seq!["-e"@, ls[i as int]]);
        i = i + 1;
    }
    assert(ls.skip(i as int) =~= Seq::<Seq<char>>::empty());
    let ghost before = r@;
    r.push(String::from_str("--"));
    let mut j: usize = 0;
    while j < args.len()
        invariant
            j <= args@.len(),
            xs == string_views(args@),
            string_views(r@) == string_views(before) + seq!["--"@] + xs.take(j as int),
        decreases args@.len() - j,
    {
        let ghost old_r = r@;
        r.push(args[j].clone());
        assert(xs.take(j + 1) =~= xs.take(j as int).push(xs[j as int]));
        assert(string_views(r@) =~= string_views(old_r).push(xs[j as int]));
        j = j + 1;
    }
    assert(xs.take(args@.len() as int) =~= xs);
    r
}

/// What a finished script or helper run is read as: its standard output,
/// trimmed, on success; its standard error, trimmed, otherwise.
pub open spec fn run_outcome(success: bool, stdout: Seq<char>, stderr: Seq<char>) -> Result<Seq<char>, Seq<char>> {
    if success {
        Ok(trim(stdout))
    } else {
        Err(trim(stderr))
    }
}

/// Reads a finished `osascript` run (its output decoded as text).
pub fn script_outcome(success: bool, stdout: &str, stderr: &str) -> (r: Result<String, String>)
    ensures
        crate::digest::result_view(r) == run_outcome(success, stdout@, stderr@),
{
    if success {
        Ok(trim_str(stdout))
    } else {
        Err(trim_str(stderr))
    }
}

/// Any pid the launcher prints is read back, whatever white space surrounds
/// it: for every `u32` pid, a reply of white space, the pid in decimal and
/// white space gives that pid.
pub proof fn lemma_printed_pid_is_read(pid: u32, before: Seq<char>, after: Seq<char>)
    requires
        forall|j: int| 0 <= j < before.len() ==> crate::text::is_white_space(#[trigger] before[j]),
        forall|j: int| 0 <= j < after.len() ==> crate::text::is_white_space(#[trigger] after[j]),
    ensures
        core_pid_reply(before + decimal(pid as nat) + after) == Ok::<u32, Seq<char>>(pid),
{
    let d = decimal(pid as nat);
    crate::decimal::lemma_decimal_facts(pid as nat);
    crate::decimal::lemma_parse_decimal(pid as nat);
    assert(crate::text::is_digit(d[0]));
    assert(crate::text::is_digit(d.last()));
    assert(before + d + after =~= before + (d + after));
    crate::text::lemma_trim_start_of_prefix(before, d + after, CharClass::WhiteSpace);
    assert((d + after)[0] == d[0]);
    assert(crate::text::trim_start_of(d + after, CharClass::WhiteSpace) == d + after);
    crate::text::lemma_trim_end_of_suffix(d, after, CharClass::WhiteSpace);
}

/// Only pids 0 and 1 are refused; every other pid is signalled with
/// `-KILL` (forced) or `-TERM`, and the pid argument reads back as the pid.
pub proof fn lemma_stop_refuses_only_zero_and_one(pid: u32, force: bool)
    ensures
        stop_arguments(pid, force) is Ok <==> pid > 1,
        pid <= 1 ==> stop_arguments(pid, force) == Err::<Seq<Seq<char>>, Seq<char>>("invalid process id"@),
        stop_arguments(pid, force) matches Ok(v) ==> v.len() == 2 && v[0] == (if force {
            "-KILL"@
        } else {
            "-TERM"@
        }) && parse_u32(v[1]) == Some(pid),
{
    crate::decimal::lemma_parse_decimal(pid as nat);
}

/// The argument list of `osascript` is `-e` and a line for each script
/// line in order, then `--`, then every script argument unchanged and in
/// order (empty ones included).
pub proof fn lemma_osascript_argv_layout(lines: Seq<Seq<char>>, args: Seq<Seq<char>>)
    ensures
        osascript_argv(lines, args).len() == 2 * lines.len() + 1 + args.len(),
        forall|i: int| 0 <= i < lines.len() ==> (osascript_argv(lines, args)[2 * i], osascript_argv(
            lines,
            args,
        )[2 * i + 1]) == ("-e"@, #[trigger] lines[i]),
        osascript_argv(lines, args)[2 * lines.len() as int] == "--"@,
        osascript_argv(lines, args).skip(2 * lines.len() as int + 1) == args,
    decreases lines.len(),
{
    reveal_strlit("-e");
    reveal_strlit("--");
    let v = osascript_argv(lines, args);
    if lines.len() == 0 {
        assert(v.skip(1) =~= args);
    } else {
        let rest = lines.drop_first();
        lemma_osascript_argv_layout(rest, args);
        let w = osascript_argv(rest, args);
        assert(v == seq!["-e"@, lines[0]] + w);
        assert forall|i: int| 0 <= i < lines.len() implies (v[2 * i], v[2 * i + 1]) == ("-e"@,
            #[trigger] lines[i]) by {
            if i == 0 {
                assert(v[0] == "-e"@);
                assert(v[1] == lines[0]);
            } else {
                assert(rest[i - 1] == lines[i]);
                assert(v[2 * i] == w[2 * (i - 1)]);
                assert(v[2 * i + 1] == w[2 * (i - 1) + 1]);
            }
        }
        assert(v[2 * lines.len() as int] == w[2 * rest.len() as int]);
        assert(v.skip(2 * lines.len() as int + 1) =~= w.skip(2 * rest.len() as int + 1));
    }
}

} // verus!

