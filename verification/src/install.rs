//! Installing a downloaded core archive: confining paths to the data
//! directory, picking the executables out of the archive, checking the
//! unpacked CLI, and swapping the new core in with a backup to fall back on.
use vstd::prelude::*;
use crate::decimal::{decimal, decimal_string};
use crate::digest::result_view;
use crate::path::{file_name, file_name_chars, path_starts_with, path_starts_with_chars, same_path, same_path_chars, PathStyle};
use crate::text::{chars_equal, chars_of, concat, string_views, trim, trim_str};

verus! {

/// What `ensure_child_path` returns, given the outcomes of canonicalising
/// the root directory and the path.
pub open spec fn child_path(style: PathStyle, root: Result<Seq<char>, Seq<char>>, path: Result<Seq<char>, Seq<char>>) -> Result<Seq<char>, Seq<char>> {
    match root {
        Err(e) => Err("failed to resolve data directory: "@ + e),
        Ok(r) => match path {
            Err(e) => Err("failed to resolve path: "@ + e),
            Ok(p) => if path_starts_with(style, p, r) {
                Ok(p)
            } else {
                Err("path is outside the application data directory"@)
            },
        },
    }
}

/// Confines a path to the application data directory. Both arguments are
/// the outcomes of canonicalising the directory and the path (the
/// canonical path, or the error text); the path is returned when its
/// components begin with those of the directory.
pub fn ensure_child_path(style: PathStyle, root: Result<String, String>, path: Result<String, String>) -> (r: Result<String, String>)
    ensures
        result_view(r) == child_path(style, result_view(root), result_view(path)),
        r matches Ok(p) ==> path matches Ok(q) && p@ == q@,
{
    let root = match root {
        Ok(r) => r,
        Err(e) => {
            return Err(concat(String::from_str("failed to resolve data directory: "), e.as_str()));
        },
    };
    let path = match path {
        Ok(p) => p,
        Err(e) => {
            return Err(concat(String::from_str("failed to resolve path: "), e.as_str()));
        },
    };
    let rc = chars_of(root.as_str());
    let pc = chars_of(path.as_str());
    if !path_starts_with_chars(style, &pc, &rc) {
        return Err(String::from_str("path is outside the application data directory"));
    }
    Ok(path)
}

/// The data directory itself passes the confinement, and so does anything
/// whose components extend it.
pub proof fn lemma_root_is_inside(style: PathStyle, root: Seq<char>, path: Seq<char>)
    requires
        crate::path::components(style, root).is_prefix_of(crate::path::components(style, path)),
    ensures
        child_path(style, Ok(root), Ok(root)) == Ok::<Seq<char>, Seq<char>>(root),
        child_path(style, Ok(root), Ok(path)) == Ok::<Seq<char>, Seq<char>>(path),
{
    assert(crate::path::components(style, root).is_prefix_of(crate::path::components(style, root))) by {
        assert(crate::path::components(style, root) =~= crate::path::components(style, root).subrange(
            0,
            crate::path::components(style, root).len() as int,
        ));
    }
}

/// What `managed_cli_program` returns, given the outcomes of canonicalising
/// the requested program and the managed CLI path.
pub open spec fn managed_cli(style: PathStyle, requested: Result<Seq<char>, Seq<char>>, expected: Result<Seq<char>, Seq<char>>) -> Result<Seq<char>, Seq<char>> {
    match requested {
        Err(e) => Err("failed to resolve CLI path: "@ + e),
        Ok(r) => match expected {
            Err(e) => Err("failed to resolve managed CLI path: "@ + e),
            Ok(x) => if same_path(style, r, x) {
                Ok(x)
            } else {
                Err("CLI path is outside the managed core directory"@)
            },
        },
    }
}

/// Admits only the managed `easytier-cli`: the canonical requested program
/// must be the same path as the canonical managed CLI, which is returned.
pub fn managed_cli_program(style: PathStyle, requested: Result<String, String>, expected: Result<String, String>) -> (r: Result<String, String>)
    ensures
        result_view(r) == managed_cli(style, result_view(requested), result_view(expected)),
{
    let requested = match requested {
        Ok(r) => r,
        Err(e) => {
            return Err(concat(String::from_str("failed to resolve CLI path: "), e.as_str()));
        },
    };
    let expected = match expected {
        Ok(x) => x,
        Err(e) => {
            return Err(concat(String::from_str("failed to resolve managed CLI path: "), e.as_str()));
        },
    };
    let rc = chars_of(requested.as_str());
    let xc = chars_of(expected.as_str());
    if !same_path_chars(style, &rc, &xc) {
        return Err(String::from_str("CLI path is outside the managed core directory"));
    }
    Ok(expected)
}

/// The executables a core archive must hold, in the order they are
/// unpacked.
pub open spec fn core_executables(windows: bool) -> Seq<Seq<char>> {
    if windows {
        seq!["easytier-core.exe"@, "easytier-cli.exe"@]
    } else {
        seq!["easytier-core"@, "easytier-cli"@]
    }
}

/// The names of [`core_executables`].
pub fn core_executable_names(windows: bool) -> (r: Vec<String>)
    ensures
        string_views(r@) == core_executables(windows),
{
    let mut r: Vec<String> = Vec::new();
    if windows {
        r.push(String::from_str("easytier-core.exe"));
        r.push(String::from_str("easytier-cli.exe"));
    } else {
        r.push(String::from_str("easytier-core"));
        r.push(String::from_str("easytier-cli"));
    }
    assert(string_views(r@) =~= core_executables(windows));
    r
}

/// The name of the CLI executable, which checks an unpacked core.
pub fn cli_executable_name(windows: bool) -> (r: String)
    ensures
        r@ == core_executables(windows)[1],
{
    if windows {
        String::from_str("easytier-cli.exe")
    } else {
        String::from_str("easytier-cli")
    }
}

/// The staging directory an installation unpacks into, named after the
/// installing process.
pub fn staging_dir_name(pid: u32) -> (r: String)
    ensures
        r@ == ".install-"@ + decimal(pid as nat),
{
    let n = decimal_string(pid as u64);
    concat(String::from_str(".install-"), n.as_str())
}

/// One entry of a core archive, as far as the search reads it.
pub enum ArchiveEntry {
    /// The entry could not be read; the text of the error.
    Unreadable(String),
    /// The entry's name would leave the extraction directory.
    UnsafePath,
    /// The entry's enclosed path.
    Named(String),
}

/// What an [`ArchiveEntry`] holds, as plain values.
pub enum EntryView {
    Unreadable(Seq<char>),
    UnsafePath,
    Named(Seq<char>),
}

impl View for ArchiveEntry {
    type V = EntryView;

    open spec fn view(&self) -> EntryView {
        match self {
            ArchiveEntry::Unreadable(e) => EntryView::Unreadable(e@),
            ArchiveEntry::UnsafePath => EntryView::UnsafePath,
            ArchiveEntry::Named(p) => EntryView::Named(p@),
        }
    }
}

/// The views of a sequence of archive entries.
pub open spec fn entry_views(v: Seq<ArchiveEntry>) -> Seq<EntryView> {
    v.map_values(|e: ArchiveEntry| e@)
}

/// Scans the entries from index `i` for the one whose file name is `name`;
/// an unreadable or unsafe entry met first ends the search with an error.
pub open spec fn entry_search(style: PathStyle, entries: Seq<EntryView>, name: Seq<char>, i: int) -> Result<int, Seq<char>>
    decreases entries.len() - i,
{
    if i < 0 || i >= entries.len() {
        Err(name + " is missing from archive"@)
    } else {
        match entries[i] {
            EntryView::Unreadable(e) => Err("failed to inspect core archive: "@ + e),
            EntryView::UnsafePath => Err("core archive contains an unsafe path"@),
            EntryView::Named(p) => if file_name(style, p) == Some(name) {
                Ok(i)
            } else {
                entry_search(style, entries, name, i + 1)
            },
        }
    }
}

/// The view of a `Result<usize, String>`.
pub open spec fn index_result_view(r: Result<usize, String>) -> Result<int, Seq<char>> {
    match r {
        Ok(i) => Ok(i as int),
        Err(e) => Err(e@),
    }
}

/// Finds the index of the archive entry for `executable_name`.
pub fn find_archive_entry(style: PathStyle, entries: &[ArchiveEntry], executable_name: &str) -> (r: Result<usize, String>)
    ensures
        index_result_view(r) == entry_search(style, entry_views(entries@), executable_name@, 0),
        r matches Ok(i) ==> i < entries@.len(),
{
    let ghost ev = entry_views(entries@);
    let name = chars_of(executable_name);
    let mut i: usize = 0;
    while i < entries.len()
        invariant
            i <= entries@.len(),
            ev == entry_views(entries@),
            name@ == executable_name@,
            entry_search(style, ev, name@, 0) == entry_search(style, ev, name@, i as int),
        decreases entries@.len() - i,
    {
        assert(ev[i as int] == entries@[i as int]@);
        match &entries[i] {
            ArchiveEntry::Unreadable(e) => {
                return Err(concat(String::from_str("failed to inspect core archive: "), e.as_str()));
            },
            ArchiveEntry::UnsafePath => {
                return Err(String::from_str("core archive contains an unsafe path"));
            },
            ArchiveEntry::Named(p) => {
                let pc = chars_of(p.as_str());
                let matched = match file_name_chars(style, &pc) {
                    Some(f) => chars_equal(&f, &name),
                    None => false,
                };
                if matched {
                    return Ok(i);
                }
            },
        }
        i = i + 1;
    }
    Err(concat(String::from_str(executable_name), " is missing from archive"))
}

/// Reads the unpacked CLI's `-V` run: on success its version text
/// (standard output, trimmed); otherwise why the check failed.
pub open spec fn cli_check(success: bool, stdout: Seq<char>, stderr: Seq<char>) -> Result<Seq<char>, Seq<char>> {
    if success {
        Ok(trim(stdout))
    } else {
        Err("easytier-cli validation failed: "@ + trim(stderr))
    }
}

/// Reads the unpacked CLI's `-V` run (its output decoded as text).
pub fn check_cli_version(success: bool, stdout: &str, stderr: &str) -> (r: Result<String, String>)
    ensures
        result_view(r) == cli_check(success, stdout@, stderr@),
{
    if success {
        Ok(trim_str(stdout))
    } else {
        let t = trim_str(stderr);
        Err(concat(String::from_str("easytier-cli validation failed: "), t.as_str()))
    }
}


// ---------------------------------------------------------------------------
// Swapping the staged core in
// ---------------------------------------------------------------------------

/// Where the swap of the staged core into `resource/current` stands. The
/// caller performs each [`SwapAction`] and reports its outcome to
/// [`swap_step`]: `Ok(exists)` for an existence check, `Ok(true)` or the
/// error text for a file-system operation.
pub enum SwapState {
    /// Waiting for: does `.previous` exist?
    CheckingBackup,
    /// Waiting for: removal of the old `.previous`.
    RemovingBackup,
    /// Waiting for: does `current` exist?
    CheckingCurrent,
    /// Waiting for: rename of `current` to `.previous`.
    PreservingCurrent,
    /// Waiting for: rename of the staging directory to `current`.
    Activating,
    /// Activation failed with this message; waiting for: does `.previous` exist?
    CheckingRollback(String),
    /// Activation failed with this message; waiting for: rename of `.previous` back to `current`.
    RollingBack(String),
    /// Activated; waiting for: does `.previous` exist?
    CheckingLeftover,
    /// Activated; waiting for: removal of `.previous`.
    DiscardingBackup,
    /// Nothing left to do.
    Finished,
}

/// The next file-system step of the swap.
pub enum SwapAction {
    CheckBackup,
    RemoveBackup,
    CheckCurrent,
    MoveCurrentToBackup,
    MoveStagingToCurrent,
    RestoreBackup,
    DiscardBackup,
    /// The swap is over, with this outcome.
    Done(Result<(), String>),
}

/// What a [`SwapState`] holds, as plain values.
pub enum SwapStateView {
    CheckingBackup,
    RemovingBackup,
    CheckingCurrent,
    PreservingCurrent,
    Activating,
    CheckingRollback(Seq<char>),
    RollingBack(Seq<char>),
    CheckingLeftover,
    DiscardingBackup,
    Finished,
}

/// What a [`SwapAction`] holds, as plain values.
pub enum SwapActionView {
    CheckBackup,
    RemoveBackup,
    CheckCurrent,
    MoveCurrentToBackup,
    MoveStagingToCurrent,
    RestoreBackup,
    DiscardBackup,
    Done(Result<(), Seq<char>>),
}

impl View for SwapState {
    type V = SwapStateView;

    open spec fn view(&self) -> SwapStateView {
        match self {
            SwapState::CheckingBackup => SwapStateView::CheckingBackup,
            SwapState::RemovingBackup => SwapStateView::RemovingBackup,
            SwapState::CheckingCurrent => SwapStateView::CheckingCurrent,
            SwapState::PreservingCurrent => SwapStateView::PreservingCurrent,
            SwapState::Activating => SwapStateView::Activating,
            SwapState::CheckingRollback(m) => SwapStateView::CheckingRollback(m@),
            SwapState::RollingBack(m) => SwapStateView::RollingBack(m@),
            SwapState::CheckingLeftover => SwapStateView::CheckingLeftover,
            SwapState::DiscardingBackup => SwapStateView::DiscardingBackup,
            SwapState::Finished => SwapStateView::Finished,
        }
    }
}

impl View for SwapAction {
    type V = SwapActionView;

    open spec fn view(&self) -> SwapActionView {
        match self {
            SwapAction::CheckBackup => SwapActionView::CheckBackup,
            SwapAction::RemoveBackup => SwapActionView::RemoveBackup,
            SwapAction::CheckCurrent => SwapActionView::CheckCurrent,
            SwapAction::MoveCurrentToBackup => SwapActionView::MoveCurrentToBackup,
            SwapAction::MoveStagingToCurrent => SwapActionView::MoveStagingToCurrent,
            SwapAction::RestoreBackup => SwapActionView::RestoreBackup,
            SwapAction::DiscardBackup => SwapActionView::DiscardBackup,
            SwapAction::Done(r) => SwapActionView::Done(
                match r {
                    Ok(()) => Ok(()),
                    Err(e) => Err(e@),
                },
            ),
        }
    }
}

/// The view of a step's outcome report.
pub open spec fn report_view(r: Result<bool, String>) -> Result<bool, Seq<char>> {
    match r {
        Ok(b) => Ok(b),
        Err(e) => Err(e@),
    }
}

/// The swap's transitions. An existence check reads `Ok(true)` as "exists"
/// and anything else as "does not exist"; an operation reads `Ok(_)` as
/// success.
pub open spec fn swap_next(state: SwapStateView, report: Result<bool, Seq<char>>) -> (SwapStateView, SwapActionView) {
    let exists = report == Ok::<bool, Seq<char>>(true);
    match state {
        SwapStateView::CheckingBackup => if exists {
            (SwapStateView::RemovingBackup, SwapActionView::RemoveBackup)
        } else {
            (SwapStateView::CheckingCurrent, SwapActionView::CheckCurrent)
        },
        SwapStateView::RemovingBackup => match report {
            Err(e) => (
                SwapStateView::Finished,
                SwapActionView::Done(Err("failed to remove previous backup: "@ + e)),
            ),
            Ok(_) => (SwapStateView::CheckingCurrent, SwapActionView::CheckCurrent),
        },
        SwapStateView::CheckingCurrent => if exists {
            (SwapStateView::PreservingCurrent, SwapActionView::MoveCurrentToBackup)
        } else {
            (SwapStateView::Activating, SwapActionView::MoveStagingToCurrent)
        },
        SwapStateView::PreservingCurrent => match report {
            Err(e) => (
                SwapStateView::Finished,
                SwapActionView::Done(Err("failed to preserve current core: "@ + e)),
            ),
            Ok(_) => (SwapStateView::Activating, SwapActionView::MoveStagingToCurrent),
        },
        SwapStateView::Activating => match report {
            Err(e) => (
                SwapStateView::CheckingRollback("failed to activate installed core: "@ + e),
                SwapActionView::CheckBackup,
            ),
            Ok(_) => (SwapStateView::CheckingLeftover, SwapActionView::CheckBackup),
        },
        SwapStateView::CheckingRollback(m) => if exists {
            (SwapStateView::RollingBack(m), SwapActionView::RestoreBackup)
        } else {
            (SwapStateView::Finished, SwapActionView::Done(Err(m)))
        },
        SwapStateView::RollingBack(m) => (SwapStateView::Finished, SwapActionView::Done(Err(m))),
        SwapStateView::CheckingLeftover => if exists {
            (SwapStateView::DiscardingBackup, SwapActionView::DiscardBackup)
        } else {
            (SwapStateView::Finished, SwapActionView::Done(Ok(())))
        },
        SwapStateView::DiscardingBackup => (SwapStateView::Finished, SwapActionView::Done(Ok(()))),
        SwapStateView::Finished => (SwapStateView::Finished, SwapActionView::Done(Ok(()))),
    }
}

/// The first step of the swap.
pub fn swap_start() -> (r: (SwapState, SwapAction))
    ensures
        r.0@ == SwapStateView::CheckingBackup,
        r.1@ == SwapActionView::CheckBackup,
{
    (SwapState::CheckingBackup, SwapAction::CheckBackup)
}

/// Advances the swap by the outcome of the last action.
pub fn swap_step(state: SwapState, report: Result<bool, String>) -> (r: (SwapState, SwapAction))
    ensures
        (r.0@, r.1@) == swap_next(state@, report_view(report)),
{
    let exists = match &report {
        Ok(b) => *b,
        Err(_) => false,
    };
    match state {
        SwapState::CheckingBackup => if exists {
            (SwapState::RemovingBackup, SwapAction::RemoveBackup)
        } else {
            (SwapState::CheckingCurrent, SwapAction::CheckCurrent)
        },
        SwapState::RemovingBackup => match report {
            Err(e) => (
                SwapState::Finished,
                SwapAction::Done(Err(concat(String::from_str("failed to remove previous backup: "), e.as_str()))),
            ),
            Ok(_) => (SwapState::CheckingCurrent, SwapAction::CheckCurrent),
        },
        SwapState::CheckingCurrent => if exists {
            (SwapState::PreservingCurrent, SwapAction::MoveCurrentToBackup)
        } else {
            (SwapState::Activating, SwapAction::MoveStagingToCurrent)
        },
        SwapState::PreservingCurrent => match report {
            Err(e) => (
                SwapState::Finished,
                SwapAction::Done(Err(concat(String::from_str("failed to preserve current core: "), e.as_str()))),
            ),
            Ok(_) => (SwapState::Activating, SwapAction::MoveStagingToCurrent),
        },
        SwapState::Activating => match report {
            Err(e) => (
                SwapState::CheckingRollback(concat(String::from_str("failed to activate installed core: "), e.as_str())),
                SwapAction::CheckBackup,
            ),
            Ok(_) => (SwapState::CheckingLeftover, SwapAction::CheckBackup),
        },
        SwapState::CheckingRollback(m) => if exists {
            (SwapState::RollingBack(m), SwapAction::RestoreBackup)
        } else {
            (SwapState::Finished, SwapAction::Done(Err(m)))
        },
        SwapState::RollingBack(m) => (SwapState::Finished, SwapAction::Done(Err(m))),
        SwapState::CheckingLeftover => if exists {
            (SwapState::DiscardingBackup, SwapAction::DiscardBackup)
        } else {
            (SwapState::Finished, SwapAction::Done(Ok(())))
        },
        SwapState::DiscardingBackup => (SwapState::Finished, SwapAction::Done(Ok(()))),
        SwapState::Finished => (SwapState::Finished, SwapAction::Done(Ok(()))),
    }
}


/// How many steps a swap state is at most from its end.
pub open spec fn swap_rank(state: SwapStateView) -> nat {
    match state {
        SwapStateView::CheckingBackup => 8,
        SwapStateView::RemovingBackup => 7,
        SwapStateView::CheckingCurrent => 6,
        SwapStateView::PreservingCurrent => 5,
        SwapStateView::Activating => 4,
        SwapStateView::CheckingRollback(_) => 3,
        SwapStateView::RollingBack(_) => 2,
        SwapStateView::CheckingLeftover => 3,
        SwapStateView::DiscardingBackup => 2,
        SwapStateView::Finished => 0,
    }
}

/// The staged core has been moved into place.
pub open spec fn swap_activated(state: SwapStateView) -> bool {
    state is CheckingLeftover || state is DiscardingBackup
}

/// Every step of an unfinished swap moves closer to its end, whatever the
/// outcome reported, and the swap says `Done` exactly when it finishes; so
/// a swap ends within eight steps.
pub proof fn lemma_swap_terminates(state: SwapStateView, report: Result<bool, Seq<char>>)
    requires
        !(state is Finished),
    ensures
        swap_rank(swap_next(state, report).0) < swap_rank(state),
        (swap_next(state, report).1 is Done) == (swap_next(state, report).0 is Finished),
{
}

/// A swap reports success only once the staged core has been moved into
/// place, and that move happens only on a successful rename from the
/// activating step.
pub proof fn lemma_swap_success_needs_activation(state: SwapStateView, report: Result<bool, Seq<char>>)
    requires
        !(state is Finished),
    ensures
        swap_next(state, report).1 == SwapActionView::Done(Ok(())) ==> swap_activated(state),
        swap_activated(swap_next(state, report).0) ==> swap_activated(state) || (
        state is Activating && report is Ok),
{
}

/// When activation fails, the swap next looks for the backup and, where it
/// exists, restores it before ending with the activation error.
pub proof fn lemma_failed_activation_restores(e: Seq<char>)
    ensures
        ({
            let m = "failed to activate installed core: "@ + e;
            let (s1, a1) = swap_next(SwapStateView::Activating, Err(e));
            let (s2, a2) = swap_next(s1, Ok(true));
            let (s3, a3) = swap_next(s2, Ok(true));
            &&& a1 == SwapActionView::CheckBackup
            &&& a2 == SwapActionView::RestoreBackup
            &&& a3 == SwapActionView::Done(Err(m))
            &&& swap_next(s1, Ok(false)).1 == SwapActionView::Done(Err(m))
        }),
{
}


// ---------------------------------------------------------------------------
// The installation as a whole
// ---------------------------------------------------------------------------

/// Where an installation stands once its archive path is confined and its
/// expected digest normalised. The caller performs each [`InstallAction`]
/// and reports its outcome to [`install_step`].
pub enum InstallState {
    /// Waiting for: reading the archive and checking its digest.
    Verifying,
    /// Waiting for: creating `resource/` and a fresh staging directory.
    Staging,
    /// Waiting for: unpacking into staging, checking the CLI and the swap.
    Unpacking,
    /// Nothing left to do.
    Finished,
}

/// The outcome of an installation step.
pub enum InstallReport {
    /// The step succeeded; for the unpacking step, with the CLI's version.
    Succeeded(String),
    /// The step failed, with this message.
    Failed(String),
    /// The archive's digest did not match, with this message.
    Mismatch(String),
}

/// The next step of an installation.
pub enum InstallAction {
    /// Read the archive and check its digest.
    VerifyArchive,
    /// Create `resource/`, clear an old staging directory, create it anew.
    PrepareStaging,
    /// Unpack the executables, check the CLI and swap the core in.
    Unpack,
    /// Clean up as told, then end the installation with this outcome.
    Finish { remove_archive: bool, clear_staging: bool, outcome: Result<String, String> },
}

/// What an [`InstallState`] holds, as plain values.
pub enum InstallStateView {
    Verifying,
    Staging,
    Unpacking,
    Finished,
}

/// What an [`InstallReport`] holds, as plain values.
pub enum InstallReportView {
    Succeeded(Seq<char>),
    Failed(Seq<char>),
    Mismatch(Seq<char>),
}

/// What an [`InstallAction`] holds, as plain values.
pub enum InstallActionView {
    VerifyArchive,
    PrepareStaging,
    Unpack,
    Finish { remove_archive: bool, clear_staging: bool, outcome: Result<Seq<char>, Seq<char>> },
}

impl View for InstallState {
    type V = InstallStateView;

    open spec fn view(&self) -> InstallStateView {
        match self {
            InstallState::Verifying => InstallStateView::Verifying,
            InstallState::Staging => InstallStateView::Staging,
            InstallState::Unpacking => InstallStateView::Unpacking,
            InstallState::Finished => InstallStateView::Finished,
        }
    }
}

impl View for InstallReport {
    type V = InstallReportView;

    open spec fn view(&self) -> InstallReportView {
        match self {
            InstallReport::Succeeded(t) => InstallReportView::Succeeded(t@),
            InstallReport::Failed(m) => InstallReportView::Failed(m@),
            InstallReport::Mismatch(m) => InstallReportView::Mismatch(m@),
        }
    }
}

impl View for InstallAction {
    type V = InstallActionView;

    open spec fn view(&self) -> InstallActionView {
        match self {
            InstallAction::VerifyArchive => InstallActionView::VerifyArchive,
            InstallAction::PrepareStaging => InstallActionView::PrepareStaging,
            InstallAction::Unpack => InstallActionView::Unpack,
            InstallAction::Finish { remove_archive, clear_staging, outcome } => InstallActionView::Finish {
                remove_archive: *remove_archive,
                clear_staging: *clear_staging,
                outcome: result_view(*outcome),
            },
        }
    }
}

/// The installation's transitions. A digest mismatch removes the archive;
/// any other failure keeps it; success removes it. Once unpacking has
/// begun the staging directory is cleared, whatever the outcome. A
/// mismatch report outside the digest check reads as a failure.
pub open spec fn install_next(state: InstallStateView, report: InstallReportView) -> (InstallStateView, InstallActionView) {
    let message = match report {
        InstallReportView::Succeeded(t) => t,
        InstallReportView::Failed(m) => m,
        InstallReportView::Mismatch(m) => m,
    };
    match state {
        InstallStateView::Verifying => match report {
            InstallReportView::Succeeded(_) => (InstallStateView::Staging, InstallActionView::PrepareStaging),
            InstallReportView::Mismatch(m) => (
                InstallStateView::Finished,
                InstallActionView::Finish { remove_archive: true, clear_staging: false, outcome: Err(m) },
            ),
            InstallReportView::Failed(m) => (
                InstallStateView::Finished,
                InstallActionView::Finish { remove_archive: false, clear_staging: false, outcome: Err(m) },
            ),
        },
        InstallStateView::Staging => match report {
            InstallReportView::Succeeded(_) => (InstallStateView::Unpacking, InstallActionView::Unpack),
            _ => (
                InstallStateView::Finished,
                InstallActionView::Finish { remove_archive: false, clear_staging: false, outcome: Err(message) },
            ),
        },
        InstallStateView::Unpacking => match report {
            InstallReportView::Succeeded(version) => (
                InstallStateView::Finished,
                InstallActionView::Finish { remove_archive: true, clear_staging: true, outcome: Ok(version) },
            ),
            _ => (
                InstallStateView::Finished,
                InstallActionView::Finish { remove_archive: false, clear_staging: true, outcome: Err(message) },
            ),
        },
        InstallStateView::Finished => (
            InstallStateView::Finished,
            InstallActionView::Finish { remove_archive: false, clear_staging: false, outcome: Ok(message) },
        ),
    }
}

/// The first step of an installation.
pub fn install_start() -> (r: (InstallState, InstallAction))
    ensures
        r.0@ == InstallStateView::Verifying,
        r.1@ == InstallActionView::VerifyArchive,
{
    (InstallState::Verifying, InstallAction::VerifyArchive)
}

/// Advances an installation by the outcome of the last action.
pub fn install_step(state: InstallState, report: InstallReport) -> (r: (InstallState, InstallAction))
    ensures
        (r.0@, r.1@) == install_next(state@, report@),
{
    let message = match &report {
        InstallReport::Succeeded(t) => t.clone(),
        InstallReport::Failed(m) => m.clone(),
        InstallReport::Mismatch(m) => m.clone(),
    };
    match state {
        InstallState::Verifying => match report {
            InstallReport::Succeeded(_) => (InstallState::Staging, InstallAction::PrepareStaging),
            InstallReport::Mismatch(m) => (
                InstallState::Finished,
                InstallAction::Finish { remove_archive: true, clear_staging: false, outcome: Err(m) },
            ),
            InstallReport::Failed(m) => (
                InstallState::Finished,
                InstallAction::Finish { remove_archive: false, clear_staging: false, outcome: Err(m) },
            ),
        },
        InstallState::Staging => match report {
            InstallReport::Succeeded(_) => (InstallState::Unpacking, InstallAction::Unpack),
            _ => (
                InstallState::Finished,
                InstallAction::Finish { remove_archive: false, clear_staging: false, outcome: Err(message) },
            ),
        },
        InstallState::Unpacking => match report {
            InstallReport::Succeeded(version) => (
                InstallState::Finished,
                InstallAction::Finish { remove_archive: true, clear_staging: true, outcome: Ok(version) },
            ),
            _ => (
                InstallState::Finished,
                InstallAction::Finish { remove_archive: false, clear_staging: true, outcome: Err(message) },
            ),
        },
        InstallState::Finished => (
            InstallState::Finished,
            InstallAction::Finish { remove_archive: false, clear_staging: false, outcome: Ok(message) },
        ),
    }
}

/// How many steps an installation state is at most from its end.
pub open spec fn install_rank(state: InstallStateView) -> nat {
    match state {
        InstallStateView::Verifying => 3,
        InstallStateView::Staging => 2,
        InstallStateView::Unpacking => 1,
        InstallStateView::Finished => 0,
    }
}

/// Every step of an unfinished installation moves closer to its end, and
/// it says `Finish` exactly when it finishes: an installation ends within
/// three steps.
pub proof fn lemma_install_terminates(state: InstallStateView, report: InstallReportView)
    requires
        !(state is Finished),
    ensures
        install_rank(install_next(state, report).0) < install_rank(state),
        (install_next(state, report).1 is Finish) == (install_next(state, report).0 is Finished),
{
}

/// The downloaded archive is removed only after a digest mismatch or a
/// successful installation: every other failure keeps it.
pub proof fn lemma_install_keeps_archive_on_failure(state: InstallStateView, report: InstallReportView)
    requires
        !(state is Finished),
        install_next(state, report).1 matches InstallActionView::Finish { remove_archive, .. }
            && remove_archive,
    ensures
        (state is Verifying && report is Mismatch) || (state is Unpacking && report is Succeeded),
{
}

/// Once unpacking has begun, the installation ends by clearing the staging
/// directory, whether it succeeded or not; a successful installation ends
/// with the CLI's version.
pub proof fn lemma_install_clears_staging(report: InstallReportView)
    ensures
        install_next(InstallStateView::Unpacking, report).1 matches InstallActionView::Finish { clear_staging, .. }
            && clear_staging,
        report matches InstallReportView::Succeeded(v) ==> install_next(InstallStateView::Unpacking, report).1
            == (InstallActionView::Finish { remove_archive: true, clear_staging: true, outcome: Ok(v) }),
{
}

/// Nothing under `resource/` is touched before the digest is checked, and
/// the core is unpacked and swapped in only after the digest matched and
/// the staging directory was prepared.
pub proof fn lemma_install_order(state: InstallStateView, report: InstallReportView)
    ensures
        install_next(state, report).1 is PrepareStaging ==> state is Verifying && report is Succeeded,
        install_next(state, report).1 is Unpack ==> state is Staging && report is Succeeded,
        install_next(state, report).0 is Staging ==> state is Verifying && report is Succeeded,
        install_next(state, report).0 is Unpacking ==> state is Staging && report is Succeeded,
{
}

} // verus!
