//! The launcher's decisions between its system calls: whether it may start,
//! how the administrator launch and the pipe connection came out, how long
//! it waits for the pipe, and what it reports.
use vstd::prelude::*;
use vstd::utf8::{decode_utf8, valid_utf8};
use crate::lfs::{decode_lossy, utf8_lossy};
use crate::text::{chars_of, contains, contains_seq, lower_chars, lower_seq, push_decimal, decimal_seq};

verus! {

/// The pipe that the injected module opens.
pub const PIPE_NAME: &'static str = "\\\\.\\pipe\\fuckoffmaxey";

/// How long the launcher waits for the pipe, in milliseconds.
pub const PIPE_TIMEOUT_MS: u64 = 3000;

/// How long the launcher sleeps between two tries, in milliseconds.
pub const PIPE_POLL_MS: u64 = 100;

// ---------------------------------------------------------------------------
// UTF-16 for the Windows API
// ---------------------------------------------------------------------------

/// One character in UTF-16: one unit below U+10000, else a surrogate pair.
pub open spec fn utf16_char(c: char) -> Seq<u16> {
    let v = c as u32;
    if v < 0x10000 {
        seq![v as u16]
    } else {
        let w = v - 0x10000;
        seq![(0xD800 + w / 0x400) as u16, (0xDC00 + w % 0x400) as u16]
    }
}

/// A string in UTF-16.
pub open spec fn utf16_seq(s: Seq<char>) -> Seq<u16>
    decreases s.len(),
{
    if s.len() == 0 {
        seq![]
    } else {
        utf16_seq(s.drop_last()) + utf16_char(s.last())
    }
}

/// `s` in UTF-16 with a terminating zero, as the wide Windows API takes it
/// (`OsStr::encode_wide` followed by `0`).
pub fn wide_nul(s: &str) -> (r: Vec<u16>)
    ensures
        r@ == utf16_seq(s@).push(0),
{
    let cs = chars_of(s);
    let mut r: Vec<u16> = Vec::new();
    let mut i: usize = 0;
    while i < cs.len()
        invariant
            i <= cs.len(),
            cs@ == s@,
            r@ == utf16_seq(cs@.take(i as int)),
        decreases cs.len() - i,
    {
        let c = cs[i];
        let v = c as u32;
        proof {
            vstd::utf8::char_is_scalar(c);
        }
        let ghost t = cs@.take(i + 1);
        assert(t.drop_last() =~= cs@.take(i as int));
        assert(t.last() == c);
        if v < 0x10000 {
            r.push(v as u16);
            assert(utf16_char(c) =~= seq![v as u16]);
        } else {
            let w = v - 0x10000;
            r.push((0xD800 + w / 0x400) as u16);
            r.push((0xDC00 + w % 0x400) as u16);
            assert(utf16_char(c) =~= seq![(0xD800 + w / 0x400) as u16, (0xDC00 + w % 0x400) as u16]);
        }
        i = i + 1;
    }
    assert(cs@.take(cs@.len() as int) =~= cs@);
    r.push(0);
    r
}

/// The pipe's name for `CreateFileW`.
pub fn pipe_name_wide() -> (r: Vec<u16>)
    ensures
        r@ == utf16_seq(PIPE_NAME@).push(0),
{
    wide_nul(PIPE_NAME)
}

// ---------------------------------------------------------------------------
// Outcomes of system calls
// ---------------------------------------------------------------------------

/// What the elevated launch came to, given what `ShellExecuteW` returned:
/// a value above 32 is success, anything else is reported with its number.
pub fn start_as_admin(shell_result: usize) -> (r: Result<(), String>)
    ensures
        shell_result > 32 ==> r is Ok,
        shell_result <= 32 ==> (r matches Err(e) && e@ == "Administrator launch was cancelled or failed ("@
            + decimal_seq(shell_result as nat) + ")."@),
{
    if shell_result > 32 {
        Ok(())
    } else {
        let mut e = "Administrator launch was cancelled or failed (".to_owned();
        push_decimal(&mut e, shell_result as u64);
        e.append(").");
        Err(e)
    }
}

/// The answer where no elevated launch is possible.
pub fn admin_launch_unsupported() -> (r: Result<(), String>)
    ensures
        r matches Err(e) && e@ == "This launcher is for Windows."@,
{
    Err("This launcher is for Windows.".to_owned())
}

/// Whether the pipe was reached, given whether `CreateFileW` returned the
/// invalid handle.
pub fn try_connect_pipe(handle_is_invalid: bool) -> (connected: bool)
    ensures
        connected == !handle_is_invalid,
{
    !handle_is_invalid
}

/// Whether a process list (`tasklist` output, read as lossy UTF-8) mentions
/// `qwleyshade.exe` in any letter case.
pub fn tasklist_mentions_qwley(text: &str) -> (r: bool)
    ensures
        r == contains_seq(lower_seq(text@), "qwleyshade.exe"@),
{
    contains(&lower_chars(&chars_of(text)), &chars_of("qwleyshade.exe"))
}

/// Whether QWLEY SHADE already runs, given the bytes that `tasklist`
/// printed.
pub fn qwley_already_running(stdout: &[u8]) -> (r: bool)
    ensures
        r == contains_seq(lower_seq(utf8_lossy(stdout@)), "qwleyshade.exe"@),
        valid_utf8(stdout@) ==> r == contains_seq(lower_seq(decode_utf8(stdout@)), "qwleyshade.exe"@),
{
    let text = decode_lossy(stdout);
    tasklist_mentions_qwley(text.as_str())
}

// ---------------------------------------------------------------------------
// Launch steps
// ---------------------------------------------------------------------------

/// The overlay program must be present.
pub fn overlay_present(overlay_exists: bool) -> (r: Result<(), String>)
    ensures
        overlay_exists ==> r is Ok,
        !overlay_exists ==> (r matches Err(e) && e@ == "eurotrucks2.exe was not found in Desktop\\qwleyshade."@),
{
    if overlay_exists {
        Ok(())
    } else {
        Err("eurotrucks2.exe was not found in Desktop\\qwleyshade.".to_owned())
    }
}

/// Whether a launch may go ahead: not while QWLEY SHADE runs, and only with
/// both programs in place; the first failing check gives the error.
pub fn launch_preflight(already_running: bool, app_exists: bool, overlay_exists: bool) -> (r: Result<(), String>)
    ensures
        already_running ==> (r matches Err(e) && e@ == "QWLEY SHADE is already running."@),
        !already_running && !app_exists ==> (r matches Err(e) && e@ == "qwleyshade.exe was not found in Desktop\\qwleyshade."@),
        !already_running && app_exists && !overlay_exists ==> (r matches Err(e) && e@ == "eurotrucks2.exe was not found in Desktop\\qwleyshade."@),
        !already_running && app_exists && overlay_exists ==> r is Ok,
{
    if already_running {
        return Err("QWLEY SHADE is already running.".to_owned());
    }
    if !app_exists {
        return Err("qwleyshade.exe was not found in Desktop\\qwleyshade.".to_owned());
    }
    overlay_present(overlay_exists)
}

/// The next step while waiting for the pipe.
pub enum PollStep {
    /// The pipe is there: the module was injected.
    Injected,
    /// The wait is over without a pipe.
    GiveUp,
    /// Sleep this many milliseconds, then try again.
    Wait(u64),
}

/// The next step after one try at the pipe, `elapsed_ms` after the wait
/// began: stop on success, give up once the timeout has passed, else sleep.
pub fn pipe_poll_step(connected: bool, elapsed_ms: u64) -> (r: PollStep)
    ensures
        connected ==> r is Injected,
        !connected && elapsed_ms >= PIPE_TIMEOUT_MS ==> r is GiveUp,
        !connected && elapsed_ms < PIPE_TIMEOUT_MS ==> r == PollStep::Wait(PIPE_POLL_MS),
{
    if connected {
        PollStep::Injected
    } else if elapsed_ms >= PIPE_TIMEOUT_MS {
        PollStep::GiveUp
    } else {
        PollStep::Wait(PIPE_POLL_MS)
    }
}

/// The result of a launch: success only when the module was injected.
pub fn launch_outcome(injected: bool) -> (r: Result<(), String>)
    ensures
        injected ==> r is Ok,
        !injected ==> (r matches Err(e) && e@ == "Injection failed: pipe not available"@),
{
    if injected {
        Ok(())
    } else {
        Err("Injection failed: pipe not available".to_owned())
    }
}

/// Synchronising needs an installation.
pub fn require_installed(folder_exists: bool) -> (r: Result<(), String>)
    ensures
        folder_exists ==> r is Ok,
        !folder_exists ==> (r matches Err(e) && e@ == "QWLEY SHADE is not installed. Run QWLEY SHADE Installer first."@),
{
    if folder_exists {
        Ok(())
    } else {
        Err("QWLEY SHADE is not installed. Run QWLEY SHADE Installer first.".to_owned())
    }
}

} // verus!
