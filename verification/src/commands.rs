//! What the desktop commands answer: the text replies of the CLI and spawn
//! commands, the cold-start decision, and the shape of a log line.
use vstd::prelude::*;
use crate::decimal::{decimal, decimal_string};
use crate::text::{chars_of, concat, find_chars, string_of, sub_chars};

verus! {

/// Whether this start of the application is a cold start: no process id
/// was stored (or it reads as 0), or the stored one is not this process's.
pub open spec fn cold_start(stored: Option<u64>, current_pid: u64) -> bool {
    let existing = match stored {
        Some(p) => p,
        None => 0,
    };
    existing == 0 || existing != current_pid
}

/// Decides whether this is a cold start, given the process id stored by the
/// last start (`None` where nothing readable as a `u64` was stored).
pub fn is_cold_start(stored: Option<u64>, current_pid: u64) -> (r: bool)
    ensures
        r == cold_start(stored, current_pid),
{
    let existing = match stored {
        Some(p) => p,
        None => 0,
    };
    existing == 0 || existing != current_pid
}

/// Once this process's id is stored, the next check in the same process
/// is warm exactly when that id is not 0 (an id of 0 reads as "nothing
/// stored"); a store left by another process, or none, makes it cold.
pub proof fn lemma_cold_start_once(current_pid: u64, other: u64)
    requires
        other != current_pid,
    ensures
        !cold_start(Some(current_pid), current_pid) <==> current_pid != 0,
        cold_start(Some(other), current_pid),
        cold_start(None, current_pid),
{
}

/// The reply of a command that failed: `Error: ` and the reason.
pub fn error_response(reason: &str) -> (r: String)
    ensures
        r@ == "Error: "@ + reason@,
{
    concat(String::from_str("Error: "), reason)
}

/// The reply of the CLI command once the CLI ran: its standard output, or
/// why that output could not be decoded as UTF-8.
pub fn cli_output_response(decoded: Result<String, String>) -> (r: String)
    ensures
        r@ == match decoded {
            Ok(s) => s@,
            Err(e) => "Error decoding output: "@ + e@,
        },
{
    match decoded {
        Ok(s) => s,
        Err(e) => concat(String::from_str("Error decoding output: "), e.as_str()),
    }
}

/// The reply of the spawn command: the new process's id in decimal, or
/// the error.
pub fn spawn_response(spawned: Result<u32, String>) -> (r: String)
    ensures
        r@ == match spawned {
            Ok(pid) => decimal(pid as nat),
            Err(e) => "Error: "@ + e@,
        },
{
    match spawned {
        Ok(pid) => decimal_string(pid as u64),
        Err(e) => error_response(e.as_str()),
    }
}

/// A log target up to its first `@`.
pub open spec fn target_label(target: Seq<char>) -> Seq<char> {
    match crate::text::find(target, seq!['@']) {
        Some(i) => target.take(i),
        None => target,
    }
}

/// `text` padded with spaces on the right to at least `width` characters
/// (`{:<width}`).
pub open spec fn pad_right(text: Seq<char>, width: nat) -> Seq<char> {
    if text.len() >= width {
        text
    } else {
        text + Seq::new((width - text.len()) as nat, |i: int| ' ')
    }
}

/// One log line: `<date> <level padded to 5> [<target label>]: <message>`.
pub open spec fn log_line_text(date: Seq<char>, level: Seq<char>, target: Seq<char>, message: Seq<char>) -> Seq<char> {
    date + " "@ + pad_right(level, 5) + " ["@ + target_label(target) + "]: "@ + message
}

/// Formats one log line.
pub fn log_line(date: &str, level: &str, target: &str, message: &str) -> (r: String)
    ensures
        r@ == log_line_text(date@, level@, target@, message@),
{
    let tc = chars_of(target);
    let at: [char; 1] = ['@'];
    assert(at@ =~= seq!['@']);
    let label = match find_chars(&tc, &at) {
        Some(i) => {
            proof {
                crate::text::lemma_find_bounds(tc@, seq!['@'], 0);
            }
            sub_chars(&tc, 0, i)
        },
        None => tc,
    };
    let mut level_chars = chars_of(level);
    let ghost lv = level@;
    while level_chars.len() < 5
        invariant
            lv.len() <= level_chars@.len(),
            level_chars@ == lv + Seq::new((level_chars@.len() - lv.len()) as nat, |i: int| ' '),
            lv.len() < 5 ==> level_chars@.len() <= 5,
            lv.len() >= 5 ==> level_chars@.len() == lv.len(),
        decreases 5 - level_chars@.len(),
    {
        level_chars.push(' ');
        assert(level_chars@ =~= lv + Seq::new((level_chars@.len() - lv.len()) as nat, |i: int| ' '));
    }
    proof {
        if lv.len() >= 5 {
            assert(level_chars@.len() == lv.len());
            assert(level_chars@ =~= lv);
        } else {
            assert(level_chars@.len() == 5);
        }
    }
    assert(level_chars@ =~= pad_right(lv, 5));
    let r = concat(String::from_str(date), " ");
    let padded = string_of(&level_chars);
    let r = concat(r, padded.as_str());
    let r = concat(r, " [");
    let label_text = string_of(&label);
    let r = concat(r, label_text.as_str());
    let r = concat(r, "]: ");
    concat(r, message)
}

/// The log label is the longest start of the target without `@`: it is a
/// prefix of the target holding no `@`, and it is the whole target or is
/// followed by an `@`. A target without `@` is its own label.
pub proof fn lemma_target_label_is_before_first_at(target: Seq<char>)
    ensures
        target_label(target).is_prefix_of(target),
        !target_label(target).contains('@'),
        target_label(target).len() < target.len() ==> target[target_label(target).len() as int] == '@',
        !target.contains('@') ==> target_label(target) == target,
{
    crate::text::lemma_find_is_first(target, seq!['@'], 0);
    let label = target_label(target);
    match crate::text::find(target, seq!['@']) {
        Some(i) => {
            assert(target.subrange(i, i + 1)[0] == target[i]);
            assert forall|j: int| 0 <= j < label.len() implies label[j] != '@' by {
                assert(label[j] == target[j]);
                if target[j] == '@' {
                    assert(target.subrange(j, j + 1) =~= seq!['@']);
                    assert(crate::text::occurs_at(target, seq!['@'], j));
                }
            }
        },
        None => {
            assert forall|j: int| 0 <= j < target.len() implies target[j] != '@' by {
                if target[j] == '@' {
                    assert(target.subrange(j, j + 1) =~= seq!['@']);
                    assert(crate::text::occurs_at(target, seq!['@'], j));
                }
            }
        },
    }
}

/// A log line is the date, a space, the level padded with spaces to five
/// characters, a space, the target in brackets (cut at its first `@`), a
/// colon, a space and the message; for a target without `@` the brackets
/// hold the whole target.
pub proof fn lemma_log_line_layout(date: Seq<char>, level: Seq<char>, target: Seq<char>, message: Seq<char>)
    ensures
        ({
            let padded = pad_right(level, 5);
            &&& level.is_prefix_of(padded)
            &&& padded.len() == if level.len() >= 5 { level.len() } else { 5 }
            &&& forall|j: int| level.len() <= j < padded.len() ==> #[trigger] padded[j] == ' '
        }),
        !target.contains('@') ==> log_line_text(date, level, target, message) == date + " "@
            + pad_right(level, 5) + " ["@ + target + "]: "@ + message,
{
    lemma_target_label_is_before_first_at(target);
}

} // verus!

