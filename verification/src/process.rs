//! Reading `ps -axo pid=,rss=,comm=,args=` output: which lines are
//! EasyTier core processes, and what they run with.
use vstd::prelude::*;
use crate::decimal::{parse_u32, parse_u32_chars, parse_u64, parse_u64_chars};
use crate::path::{ends_after_separator, file_name, file_name_chars, is_plain_name, is_separator, PathStyle};
use crate::text::{
    ascii_lowercase, ascii_lowercase_chars, trim_start_of, chars_of, find, is_white_space,
    is_white_space_char, occurs_at, occurs_at_exec, find_chars, find_class,
    find_class_chars, lines, lines_of, string_of, strip_prefix, strip_prefix_chars,
    strip_suffix, strip_suffix_chars, sub_chars, trim_of, trim_start, trim_chars,
    trim_start_chars, views, CharClass,
};

verus! {

/// `easytier-core`, the executable whose processes are listed.
pub open spec fn core_name() -> Seq<char> {
    seq!['e', 'a', 's', 'y', 't', 'i', 'e', 'r', '-', 'c', 'o', 'r', 'e']
}

/// `.toml`.
pub open spec fn toml_suffix() -> Seq<char> {
    seq!['.', 't', 'o', 'm', 'l']
}

/// `--config-file`.
pub open spec fn long_config_flag() -> Seq<char> {
    seq!['-', '-', 'c', 'o', 'n', 'f', 'i', 'g', '-', 'f', 'i', 'l', 'e']
}

/// `-c`.
pub open spec fn short_config_flag() -> Seq<char> {
    seq!['-', 'c']
}

fn core_name_chars() -> (r: [char; 13])
    ensures
        r@ == core_name(),
{
    let r = ['e', 'a', 's', 'y', 't', 'i', 'e', 'r', '-', 'c', 'o', 'r', 'e'];
    assert(r@ =~= core_name());
    r
}

fn toml_suffix_chars() -> (r: [char; 5])
    ensures
        r@ == toml_suffix(),
{
    let r = ['.', 't', 'o', 'm', 'l'];
    assert(r@ =~= toml_suffix());
    r
}

/// The text before the first white space of `v`, and the rest from that
/// white space on.
pub open spec fn first_field(v: Seq<char>) -> Option<(Seq<char>, Seq<char>)> {
    match find_class(v, CharClass::WhiteSpace) {
        Some(i) => Some((v.take(i), v.skip(i))),
        None => None,
    }
}

/// Splits `value` at its first white-space character: the field before it,
/// and the rest starting with that character; `None` without white space.
pub fn split_first_field(value: &str) -> (r: Option<(&str, &str)>)
    ensures
        r matches Some((a, b)) ==> first_field(value@) == Some((a@, b@)),
        r is None ==> first_field(value@) is None,
{
    let v = chars_of(value);
    match find_class_chars(&v, CharClass::WhiteSpace) {
        Some(i) => {
            proof {
                crate::text::lemma_find_class_bounds(v@, CharClass::WhiteSpace, 0);
            }
            let a = value.substring_char(0, i);
            let b = value.substring_char(i, v.len());
            assert(a@ =~= value@.take(i as int));
            assert(b@ =~= value@.skip(i as int));
            Some((a, b))
        },
        None => None,
    }
}


/// `flag` begins an argument of `s` at index `i`: it occurs there, at the
/// start of `s` or right after white space (so `-c` inside a word such as
/// `easytier-core` does not count). Whatever follows it is its value.
pub open spec fn flag_at(s: Seq<char>, flag: Seq<char>, i: int) -> bool {
    &&& occurs_at(s, flag, i)
    &&& (i == 0 || is_white_space(s[i - 1]))
}

/// The first index `>= i` at which `flag` begins an argument.
pub open spec fn find_flag_from(s: Seq<char>, flag: Seq<char>, i: int) -> Option<int>
    decreases s.len() + 1 - i,
{
    if i < 0 || i + flag.len() > s.len() {
        None
    } else if flag_at(s, flag, i) {
        Some(i)
    } else {
        find_flag_from(s, flag, i + 1)
    }
}

/// Where [`find_flag_from`] can land.
pub proof fn lemma_find_flag_bounds(s: Seq<char>, flag: Seq<char>, i: int)
    requires
        0 <= i,
    ensures
        find_flag_from(s, flag, i) matches Some(k) ==> i <= k && flag_at(s, flag, k),
    decreases s.len() + 1 - i,
{
    if i + flag.len() <= s.len() && !flag_at(s, flag, i) {
        lemma_find_flag_bounds(s, flag, i + 1);
    }
}

/// The configuration flag of a command line and where it stands: the first
/// `--config-file` that begins an argument, else the first such `-c`.
pub open spec fn config_flag(command_line: Seq<char>) -> Option<(int, Seq<char>)> {
    match find_flag_from(command_line, long_config_flag(), 0) {
        Some(i) => Some((i, long_config_flag())),
        None => match find_flag_from(command_line, short_config_flag(), 0) {
            Some(i) => Some((i, short_config_flag())),
            None => None,
        },
    }
}

/// The value of the configuration flag: the text after it, without leading
/// white space, an `=` and the white space after that.
pub open spec fn config_value(command_line: Seq<char>) -> Option<Seq<char>> {
    match config_flag(command_line) {
        Some((i, flag)) => {
            let after = trim_start(command_line.skip(i + flag.len()));
            let value = match strip_prefix(after, seq!['=']) {
                Some(rest) => rest,
                None => after,
            };
            Some(trim_start(value))
        },
        None => None,
    }
}

/// The file name of the configuration file that `command_line` names: the
/// value after the flag up to and including its first `.toml` (in any ASCII
/// case), without surrounding quotes, reduced to its last path component.
pub open spec fn toml_file_name(command_line: Seq<char>) -> Option<Seq<char>> {
    match config_value(command_line) {
        Some(value) => match find(ascii_lowercase(value), toml_suffix()) {
            Some(i) => file_name(PathStyle::Unix, trim_of(value.take(i + 5), CharClass::Quote)),
            None => None,
        },
        None => None,
    }
}

/// The configuration name read off a command line is a plain file name
/// (non-empty, no `/`, neither `.` nor `..`) that ends in `.toml` in some
/// ASCII letter case.
pub proof fn lemma_toml_file_name_shape(command_line: Seq<char>)
    requires
        toml_file_name(command_line) is Some,
    ensures
        crate::path::is_plain_name(PathStyle::Unix, toml_file_name(command_line)->Some_0),
        toml_suffix().is_suffix_of(ascii_lowercase(toml_file_name(command_line)->Some_0)),
{
    lemma_toml_value_names_file(command_line);
}

/// A configuration name is found exactly when the command line has a
/// configuration flag whose value mentions `.toml` (in any ASCII case).
pub proof fn lemma_toml_file_name_found(command_line: Seq<char>)
    ensures
        toml_file_name(command_line) is Some <==> (config_value(command_line) matches Some(v)
            && find(ascii_lowercase(v), toml_suffix()) is Some),
{
    if config_value(command_line) is Some && find(
        ascii_lowercase(config_value(command_line)->Some_0),
        toml_suffix(),
    ) is Some {
        lemma_toml_value_names_file(command_line);
    }
}

/// Where the flag's value mentions `.toml`, the name found is a plain file
/// name ending in `.toml` in some ASCII case.
proof fn lemma_toml_value_names_file(command_line: Seq<char>)
    requires
        config_value(command_line) is Some,
        find(ascii_lowercase(config_value(command_line)->Some_0), toml_suffix()) is Some,
    ensures
        toml_file_name(command_line) is Some,
        crate::path::is_plain_name(PathStyle::Unix, toml_file_name(command_line)->Some_0),
        toml_suffix().is_suffix_of(ascii_lowercase(toml_file_name(command_line)->Some_0)),
{
    let value = config_value(command_line)->Some_0;
    let lower = ascii_lowercase(value);
    let i = find(lower, toml_suffix())->Some_0;
    crate::text::lemma_find_bounds(lower, toml_suffix(), 0);
    let s = value.take(i + 5);
    let x = value.subrange(i, i + 5);
    assert(lower.subrange(i, i + 5) == toml_suffix());
    assert forall|j: int| 0 <= j < 5 implies crate::text::ascii_lower(#[trigger] x[j]) == toml_suffix()[j] by {
        assert(lower.subrange(i, i + 5)[j] == lower[i + j]);
    }
    assert forall|j: int| 0 <= j < x.len() implies !is_separator(PathStyle::Unix, #[trigger] x[j]) by {
        assert(crate::text::ascii_lower(x[j]) == toml_suffix()[j]);
    }
    assert(x[0] == '.') by {
        assert(crate::text::ascii_lower(x[0]) == '.');
    }
    assert(x[4] == 'l' || x[4] == 'L') by {
        assert(crate::text::ascii_lower(x[4]) == 'l');
    }
    crate::text::lemma_trim_start_of_skips(s, CharClass::Quote);
    let k = choose|k: int|
        0 <= k <= s.len() && trim_start_of(s, CharClass::Quote) == s.skip(k) && (forall|j: int|
            0 <= j < k ==> crate::text::in_class(CharClass::Quote, #[trigger] s[j])) && (k < s.len()
            ==> !crate::text::in_class(CharClass::Quote, s[k]));
    assert(s[i] == x[0]);
    assert(k <= i) by {
        if k > i {
            assert(crate::text::in_class(CharClass::Quote, s[i]));
        }
    }
    let u = s.skip(k);
    assert(u.subrange(u.len() - 5, u.len() as int) =~= x);
    assert(u.last() == x[4]);
    crate::text::lemma_trim_end_of_keeps(u, CharClass::Quote);
    let t = trim_of(s, CharClass::Quote);
    assert(t == u);
    crate::path::lemma_file_name_of_suffix(PathStyle::Unix, t, x);
    crate::path::lemma_file_name_is_plain(PathStyle::Unix, t);
    let f = file_name(PathStyle::Unix, t)->Some_0;
    let lf = ascii_lowercase(f);
    assert(lf.subrange(lf.len() - 5, lf.len() as int) =~= toml_suffix()) by {
        assert forall|j: int| 0 <= j < 5 implies lf.subrange(lf.len() - 5, lf.len() as int)[j]
            == toml_suffix()[j] by {
            assert(f[f.len() - 5 + j] == x[j]);
        }
    }
}

/// The views of an optional `String`.
pub open spec fn opt_view(o: Option<String>) -> Option<Seq<char>> {
    match o {
        Some(s) => Some(s@),
        None => None,
    }
}

/// Exec form of [`find_flag_from`] from index 0.
fn find_flag(s: &[char], flag: &[char]) -> (r: Option<usize>)
    ensures
        r matches Some(i) ==> find_flag_from(s@, flag@, 0) == Some(i as int),
        r is None ==> find_flag_from(s@, flag@, 0) is None,
{
    let mut i: usize = 0;
    while i <= s.len()
        invariant
            i <= s@.len() + 1,
            s.len() == s@.len(),
            find_flag_from(s@, flag@, 0) == find_flag_from(s@, flag@, i as int),
        decreases s@.len() + 1 - i,
    {
        if flag.len() > s.len() - i {
            return None;
        }
        let before_ok = i == 0 || is_white_space_char(s[i - 1]);
        if before_ok && occurs_at_exec(s, flag, i) {
            return Some(i);
        }
        if i == s.len() {
            assert(find_flag_from(s@, flag@, i + 1) is None);
            return None;
        }
        i = i + 1;
    }
    None
}

/// Exec form of [`config_value`].
fn config_value_chars(cl: &[char]) -> (r: Option<Vec<char>>)
    ensures
        r matches Some(v) ==> config_value(cl@) == Some(v@),
        r is None ==> config_value(cl@) is None,
{
    let long: [char; 13] = ['-', '-', 'c', 'o', 'n', 'f', 'i', 'g', '-', 'f', 'i', 'l', 'e'];
    let short: [char; 2] = ['-', 'c'];
    assert(long@ =~= long_config_flag());
    assert(short@ =~= short_config_flag());
    proof {
        lemma_find_flag_bounds(cl@, long_config_flag(), 0);
        lemma_find_flag_bounds(cl@, short_config_flag(), 0);
    }
    let (i, flag_len) = match find_flag(cl, &long) {
        Some(i) => {
            assert(i + 13 <= cl@.len());
            (i, 13usize)
        },
        None => match find_flag(cl, &short) {
            Some(i) => {
                assert(i + 2 <= cl@.len());
                (i, 2usize)
            },
            None => {
                return None;
            },
        },
    };
    assert(cl@.len() == cl.len());
    let after_flag = sub_chars(cl, i + flag_len, cl.len());
    let after = trim_start_chars(&after_flag, CharClass::WhiteSpace);
    let eq: [char; 1] = ['='];
    assert(eq@ =~= seq!['=']);
    let value = match strip_prefix_chars(&after, &eq) {
        Some(rest) => rest,
        None => after,
    };
    let value = trim_start_chars(&value, CharClass::WhiteSpace);
    Some(value)
}

/// Finds the configuration file name (`*.toml`) that a core command line
/// names with an argument that starts with `--config-file` or `-c`.
pub fn extract_toml_file_name(command_line: &str) -> (r: Option<String>)
    ensures
        opt_view(r) == toml_file_name(command_line@),
{
    let cl = chars_of(command_line);
    let value = match config_value_chars(&cl) {
        Some(v) => v,
        None => {
            return None;
        },
    };
    let lower = ascii_lowercase_chars(&value);
    let suffix = toml_suffix_chars();
    let i = match find_chars(&lower, &suffix) {
        Some(i) => i,
        None => {
            return None;
        },
    };
    proof {
        crate::text::lemma_find_bounds(lower@, toml_suffix(), 0);
    }
    let head = sub_chars(&value, 0, i + 5);
    let trimmed = trim_chars(&head, CharClass::Quote);
    match file_name_chars(PathStyle::Unix, &trimmed) {
        Some(name) => Some(string_of(&name)),
        None => None,
    }
}


/// One EasyTier core process, as the process list reports it.
#[derive(Debug)]
pub struct ProcessInfo {
    /// The executable's file name (`easytier-core` where none can be read).
    pub name: String,
    /// The full command text after the memory column.
    pub command_line: String,
    /// The command text up to and including the first `easytier-core`.
    pub path: String,
    pub pid: u32,
    /// Resident memory in bytes (the kilobyte count times 1024, saturating).
    pub memory: u64,
    /// The configuration file name without `.toml`.
    pub config_file_name: Option<String>,
    /// The configuration file name.
    pub file_name: Option<String>,
}

/// What a [`ProcessInfo`] holds, as plain values.
pub struct ProcessView {
    pub name: Seq<char>,
    pub command_line: Seq<char>,
    pub path: Seq<char>,
    pub pid: u32,
    pub memory: u64,
    pub config_file_name: Option<Seq<char>>,
    pub file_name: Option<Seq<char>>,
}

impl View for ProcessInfo {
    type V = ProcessView;

    open spec fn view(&self) -> ProcessView {
        ProcessView {
            name: self.name@,
            command_line: self.command_line@,
            path: self.path@,
            pid: self.pid,
            memory: self.memory,
            config_file_name: opt_view(self.config_file_name),
            file_name: opt_view(self.file_name),
        }
    }
}

/// `kilobytes * 1024`, or `u64::MAX` where that does not fit.
pub open spec fn memory_bytes(kilobytes: u64) -> u64 {
    if kilobytes * 1024 > u64::MAX {
        u64::MAX
    } else {
        (kilobytes * 1024) as u64
    }
}

/// The fields of a process line once its pid and memory columns parsed and
/// it runs `easytier-core`.
pub open spec fn core_process(pid: u32, kilobytes: u64, process_text: Seq<char>, core_at: int) -> ProcessView {
    let command_path = process_text.take(core_at + core_name().len());
    let toml = toml_file_name(process_text);
    ProcessView {
        name: match file_name(PathStyle::Unix, command_path) {
            Some(n) => n,
            None => core_name(),
        },
        command_line: process_text,
        path: command_path,
        pid: pid,
        memory: memory_bytes(kilobytes),
        config_file_name: match toml {
            Some(f) => strip_suffix(f, toml_suffix()),
            None => None,
        },
        file_name: toml,
    }
}

/// What `parse_process_line` gives for a line of `ps -axo
/// pid=,rss=,comm=,args=`: the pid and memory columns must be numbers and
/// the rest must mention `easytier-core`.
pub open spec fn process_line(line: Seq<char>) -> Option<ProcessView> {
    match first_field(trim_start(line)) {
        Some((pid_text, remainder)) => match first_field(trim_start(remainder)) {
            Some((memory_text, process_text)) => match (
                parse_u32(pid_text),
                parse_u64(memory_text),
                find(process_text, core_name()),
            ) {
                (Some(pid), Some(kb), Some(at)) => Some(core_process(pid, kb, process_text, at)),
                _ => None,
            },
            None => None,
        },
        None => None,
    }
}

/// Exec form of [`first_field`] over characters.
fn first_field_chars(v: &[char]) -> (r: Option<(Vec<char>, Vec<char>)>)
    ensures
        r matches Some((a, b)) ==> first_field(v@) == Some((a@, b@)),
        r is None ==> first_field(v@) is None,
{
    match find_class_chars(v, CharClass::WhiteSpace) {
        Some(i) => {
            proof {
                crate::text::lemma_find_class_bounds(v@, CharClass::WhiteSpace, 0);
            }
            let a = sub_chars(v, 0, i);
            let b = sub_chars(v, i, v.len());
            assert(a@ =~= v@.take(i as int));
            assert(b@ =~= v@.skip(i as int));
            Some((a, b))
        },
        None => None,
    }
}

/// Reads one line of the process list; `None` unless it is an EasyTier
/// core process whose pid and memory columns are numbers.
pub fn parse_process_line(line: &str) -> (r: Option<ProcessInfo>)
    ensures
        r matches Some(p) ==> process_line(line@) == Some(p@),
        r is None ==> process_line(line@) is None,
{
    let chars = chars_of(line);
    let line_chars = trim_start_chars(&chars, CharClass::WhiteSpace);
    let (pid_text, remainder) = match first_field_chars(&line_chars) {
        Some(parts) => parts,
        None => {
            return None;
        },
    };
    let remainder = trim_start_chars(&remainder, CharClass::WhiteSpace);
    let (memory_text, process_text) = match first_field_chars(&remainder) {
        Some(parts) => parts,
        None => {
            return None;
        },
    };
    let pid = match parse_u32_chars(&pid_text) {
        Some(p) => p,
        None => {
            return None;
        },
    };
    let kilobytes = match parse_u64_chars(&memory_text) {
        Some(m) => m,
        None => {
            return None;
        },
    };
    let memory = match kilobytes.checked_mul(1024) {
        Some(m) => m,
        None => u64::MAX,
    };
    let core = core_name_chars();
    let at = match find_chars(&process_text, &core) {
        Some(i) => i,
        None => {
            return None;
        },
    };
    proof {
        crate::text::lemma_find_bounds(process_text@, core_name(), 0);
    }
    assert(process_text@.len() == process_text.len());
    let command_path = sub_chars(&process_text, 0, at + 13);
    let command_line = string_of(&process_text);
    let file_name = extract_toml_file_name(command_line.as_str());
    let config_file_name = match &file_name {
        Some(f) => {
            let f_chars = chars_of(f.as_str());
            let suffix = toml_suffix_chars();
            match strip_suffix_chars(&f_chars, &suffix) {
                Some(stem) => Some(string_of(&stem)),
                None => None,
            }
        },
        None => None,
    };
    let name = match file_name_chars(PathStyle::Unix, &command_path) {
        Some(n) => string_of(&n),
        None => string_of(&core),
    };
    let path = string_of(&command_path);
    assert(command_path@ =~= process_text@.take(at + 13));
    Some(ProcessInfo { name, command_line, path, pid, memory, config_file_name, file_name })
}

/// What a reported core process looks like: its command line is the end
/// of the line after the pid and memory columns; its path is that command
/// line up to and including its first `easytier-core`; its name is the part
/// of the path after the path's last `/` and ends in `easytier-core`; and
/// the configuration name is the file name less `.toml`.
pub proof fn lemma_core_process_shape(line: Seq<char>)
    requires
        process_line(line) is Some,
    ensures
        ({
            let p = process_line(line)->Some_0;
            &&& p.command_line.is_suffix_of(line)
            &&& p.path.is_prefix_of(p.command_line)
            &&& find(p.command_line, core_name()) == Some(p.path.len() - core_name().len())
            &&& core_name().is_suffix_of(p.path)
            &&& ends_after_separator(PathStyle::Unix, p.path, p.name)
            &&& is_plain_name(PathStyle::Unix, p.name)
            &&& core_name().is_suffix_of(p.name)
            &&& (p.config_file_name matches Some(c) ==> p.file_name == Some(c + toml_suffix()))
            &&& (p.config_file_name is None ==> (p.file_name matches Some(f) ==> !toml_suffix().is_suffix_of(f)))
        }),
{
    let (pid_text, remainder) = first_field(trim_start(line))->Some_0;
    let (memory_text, text) = first_field(trim_start(remainder))->Some_0;
    lemma_process_text_is_suffix(line);
    let at = find(text, core_name())->Some_0;
    lemma_core_process_parts(parse_u32(pid_text)->Some_0, parse_u64(memory_text)->Some_0, text, at);
}

/// The text after the pid and memory columns is a suffix of the line.
proof fn lemma_process_text_is_suffix(line: Seq<char>)
    requires
        first_field(trim_start(line)) is Some,
        first_field(trim_start(first_field(trim_start(line))->Some_0.1)) is Some,
    ensures
        first_field(trim_start(first_field(trim_start(line))->Some_0.1))->Some_0.1.is_suffix_of(line),
{
    let t1 = trim_start(line);
    let remainder = first_field(t1)->Some_0.1;
    let t2 = trim_start(remainder);
    let text = first_field(t2)->Some_0.1;
    crate::text::lemma_trim_start_of_skips(line, CharClass::WhiteSpace);
    crate::text::lemma_trim_start_of_skips(remainder, CharClass::WhiteSpace);
    crate::text::lemma_find_class_bounds(t1, CharClass::WhiteSpace, 0);
    crate::text::lemma_find_class_bounds(t2, CharClass::WhiteSpace, 0);
    let k1 = choose|k: int|
        0 <= k <= line.len() && trim_start_of(line, CharClass::WhiteSpace) == line.skip(k) && (
        forall|j: int| 0 <= j < k ==> crate::text::in_class(CharClass::WhiteSpace, #[trigger] line[j]))
            && (k < line.len() ==> !crate::text::in_class(CharClass::WhiteSpace, line[k]));
    let k2 = choose|k: int|
        0 <= k <= remainder.len() && trim_start_of(remainder, CharClass::WhiteSpace)
            == remainder.skip(k) && (forall|j: int|
            0 <= j < k ==> crate::text::in_class(CharClass::WhiteSpace, #[trigger] remainder[j]))
            && (k < remainder.len() ==> !crate::text::in_class(CharClass::WhiteSpace, remainder[k]));
    let i1 = find_class(t1, CharClass::WhiteSpace)->Some_0;
    let i2 = find_class(t2, CharClass::WhiteSpace)->Some_0;
    assert(remainder =~= line.skip(k1 + i1));
    assert(t2 =~= line.skip(k1 + i1 + k2));
    assert(text =~= line.skip(k1 + i1 + k2 + i2));
    assert(text =~= line.subrange(line.len() - text.len(), line.len() as int));
}

/// The path, name and configuration fields of a core process record.
proof fn lemma_core_process_parts(pid: u32, kilobytes: u64, text: Seq<char>, at: int)
    requires
        find(text, core_name()) == Some(at),
    ensures
        ({
            let p = core_process(pid, kilobytes, text, at);
            &&& p.path.is_prefix_of(p.command_line)
            &&& find(p.command_line, core_name()) == Some(p.path.len() - core_name().len())
            &&& core_name().is_suffix_of(p.path)
            &&& ends_after_separator(PathStyle::Unix, p.path, p.name)
            &&& is_plain_name(PathStyle::Unix, p.name)
            &&& core_name().is_suffix_of(p.name)
            &&& (p.config_file_name matches Some(c) ==> p.file_name == Some(c + toml_suffix()))
            &&& (p.config_file_name is None ==> (p.file_name matches Some(f) ==> !toml_suffix().is_suffix_of(f)))
        }),
{
    crate::text::lemma_find_bounds(text, core_name(), 0);
    let p = core_process(pid, kilobytes, text, at);
    assert(p.path == text.take(at + 13));
    assert(p.path.subrange(at, at + 13) =~= text.subrange(at, at + 13));
    assert(p.path.subrange(p.path.len() - 13, p.path.len() as int) =~= core_name());
    assert(p.path =~= text.subrange(0, p.path.len() as int));
    assert forall|j: int| 0 <= j < core_name().len() implies !is_separator(
        PathStyle::Unix,
        #[trigger] core_name()[j],
    ) by {}
    crate::path::lemma_file_name_of_suffix(PathStyle::Unix, p.path, core_name());
    match p.file_name {
        Some(f) => {
            if toml_suffix().is_suffix_of(f) {
                assert(f =~= f.take(f.len() - 5) + toml_suffix());
            }
        },
        None => {},
    }
}

/// The views of a vector of process records.
pub open spec fn process_views(v: Seq<ProcessInfo>) -> Seq<ProcessView> {
    v.map_values(|p: ProcessInfo| p@)
}

/// What `parse_process_listing` gives: the core processes of the listing,
/// one per line that [`process_line`] accepts, in order.
pub open spec fn process_listing(text: Seq<char>) -> Seq<ProcessView> {
    lines(text).filter_map(|l: Seq<char>| process_line(l))
}

/// Reads the whole output of the process list.
pub fn parse_process_listing(text: &str) -> (r: Vec<ProcessInfo>)
    ensures
        process_views(r@) == process_listing(text@),
{
    let chars = chars_of(text);
    let all = lines_of(&chars);
    let ghost ls = views(all@);
    let ghost f = |l: Seq<char>| process_line(l);
    let mut r: Vec<ProcessInfo> = Vec::new();
    let mut i: usize = 0;
    assert(ls.take(0) =~= Seq::<Seq<char>>::empty());
    while i < all.len()
        invariant
            ls == views(all@),
            ls == lines(text@),
            f == (|l: Seq<char>| process_line(l)),
            i <= all@.len(),
            process_views(r@) == ls.take(i as int).filter_map(f),
        decreases all@.len() - i,
    {
        let line = string_of(&all[i]);
        assert(line@ == ls[i as int]);
        let parsed = parse_process_line(line.as_str());
        assert(ls.take(i + 1).drop_last() =~= ls.take(i as int));
        assert(ls.take(i + 1).last() == ls[i as int]);
        let ghost old_r = r@;
        match parsed {
            Some(p) => {
                r.push(p);
                assert(process_views(r@) =~= process_views(old_r) + seq![r@.last()@]);
            },
            None => {},
        }
        i = i + 1;
    }
    assert(ls.take(all@.len() as int) =~= ls);
    r
}

/// A decimal rendering does not start with white space, and its first
/// white space, when followed by more text, is right after it.
proof fn lemma_number_field(n: nat, rest: Seq<char>)
    requires
        rest.len() > 0,
        is_white_space(rest[0]),
    ensures
        trim_start(crate::decimal::decimal(n) + rest) == crate::decimal::decimal(n) + rest,
        first_field(crate::decimal::decimal(n) + rest) == Some((crate::decimal::decimal(n), rest)),
{
    let d = crate::decimal::decimal(n);
    crate::decimal::lemma_decimal_facts(n);
    let line = d + rest;
    assert(line[0] == d[0]);
    assert(crate::text::is_digit(d[0]));
    assert forall|j: int| 0 <= j < d.len() implies !crate::text::in_class(CharClass::WhiteSpace, #[trigger] line[j]) by {
        assert(line[j] == d[j]);
        assert(crate::text::is_digit(d[j]));
    }
    assert(line[d.len() as int] == rest[0]);
    crate::text::lemma_find_class_first(line, CharClass::WhiteSpace, 0, d.len() as int);
    assert(line.take(d.len() as int) =~= d);
    assert(line.skip(d.len() as int) =~= rest);
}

/// A `ps` line made of a pid, a kilobyte count and a command that runs
/// `easytier-core` is listed, for every `u32` pid and `u64` count: with
/// that pid, the count in bytes (saturating at `u64::MAX`), and the
/// command text after the count as its command line, whose configuration
/// file name is the one [`extract_toml_file_name`] reads off it.
pub proof fn lemma_core_line_is_listed(pid: u32, kilobytes: u64, command: Seq<char>, core_at: int)
    requires
        occurs_at(command, core_name(), core_at),
    ensures
        process_line(
            crate::decimal::decimal(pid as nat) + seq![' '] + crate::decimal::decimal(kilobytes as nat)
                + seq![' '] + command,
        ) matches Some(p) && p.pid == pid && p.command_line == seq![' '] + command
            && p.file_name == toml_file_name(seq![' '] + command) && p.memory as int == (if kilobytes * 1024 <= u64::MAX {
            kilobytes * 1024
        } else {
            u64::MAX as int
        }),
{
    let dp = crate::decimal::decimal(pid as nat);
    let dk = crate::decimal::decimal(kilobytes as nat);
    let process_text = seq![' '] + command;
    let remainder = seq![' '] + (dk + process_text);
    let line = dp + seq![' '] + dk + seq![' '] + command;
    assert(line =~= dp + remainder);
    lemma_number_field(pid as nat, remainder);
    crate::text::lemma_trim_start_of_prefix(seq![' '], dk + process_text, CharClass::WhiteSpace);
    lemma_number_field(kilobytes as nat, process_text);
    crate::decimal::lemma_parse_decimal(pid as nat);
    crate::decimal::lemma_parse_decimal(kilobytes as nat);
    assert(occurs_at(process_text, core_name(), core_at + 1)) by {
        assert(process_text.subrange(core_at + 1, core_at + 1 + 13) =~= command.subrange(core_at, core_at + 13));
    }
    crate::text::lemma_find_finds(process_text, core_name(), 0, core_at + 1);
}

} // verus!

