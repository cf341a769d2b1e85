//! Processes and signals on Windows, where every signal ends a process by force.
use vstd::prelude::*;
use vstd::string::*;

use crate::text;
use crate::text::{from_chars, parse_signed, strip_prefix, to_chars, trim};
use crate::unix;
use crate::unix::{find_signal, uppercase, ExitInfo, SignalError};

verus! {

/// Whether a text in upper case says a signal: a number, or a name with `SIG` in front
/// or without.
pub open spec fn is_signal(upper: Seq<char>) -> bool {
    text::signed_of(upper) is Some || unix::signal_named(unix::without_sig(upper)) is Some
}

/// Checks a text in upper case for a signal.
pub fn is_signal_upper(upper: &str) -> (r: bool)
    ensures
        r == is_signal(upper@),
{
    let chars = to_chars(upper);
    let s = chars.as_slice();
    if parse_signed(s).is_some() {
        return true;
    }
    let name = match strip_prefix(s, "SIG") {
        Some(rest) => from_chars(rest),
        None => from_chars(s),
    };
    find_signal(name.as_str()).is_some()
}

/// The signal that a user asks for. It is checked, and makes no difference.
pub fn parse_signal(signal: &str) -> (r: Result<i32, SignalError>)
    ensures
        match r {
            Ok(k) => k == 0 && is_signal(unix::upper_of(text::trimmed(signal@))),
            Err(e) => !is_signal(unix::upper_of(text::trimmed(signal@))) && e.signal@ == signal@,
        },
{
    let chars = to_chars(signal);
    let s = from_chars(trim(chars.as_slice()));
    let upper = uppercase(s.as_str());
    assert(upper@ == unix::upper_of(s@));
    if is_signal_upper(upper.as_str()) {
        Ok(0)
    } else {
        Err(SignalError { signal: signal.to_owned() })
    }
}

/// Windows takes the signals that Unix takes.
pub proof fn same_signals_as_unix(upper: Seq<char>, numbers: unix::SignalNumbers)
    ensures
        is_signal(upper) <==> unix::signal_of(upper, numbers) is Some,
{
}

/// The process to end by force, whatever the signal.
pub fn terminate_pid_with_signal(pid: i32, signal: i32) -> (r: Option<i32>)
    ensures
        r == (if pid <= 0 {
            None
        } else {
            Some(pid)
        }),
{
    if pid <= 0 {
        return None;
    }
    Some(pid)
}

/// The process to end by force.
pub fn terminate_pid(pid: i32) -> (r: Option<i32>)
    ensures
        r == (if pid <= 0 {
            None
        } else {
            Some(pid)
        }),
{
    terminate_pid_with_signal(pid, 0)
}

/// The process to end by force, without waiting for it.
pub fn terminate_graceful(pid: i32, signal: i32) -> (r: Option<i32>)
    ensures
        r == (if pid <= 0 {
            None
        } else {
            Some(pid)
        }),
{
    terminate_pid_with_signal(pid, 0)
}

/// `windows_sys`'s `STILL_ACTIVE`, the exit code of a process that has not ended.
#[verifier::external_body]
fn still_active() -> (r: i32)
    ensures
        r == 259,
{
    windows_sys::Win32::Foundation::STILL_ACTIVE
}

/// What `OpenProcess` and `GetExitCodeProcess` returned.
#[derive(Debug, Clone, Copy, PartialEq, Eq, Structural)]
pub struct ProcessQuery {
    /// Whether the process could be opened.
    pub opened: bool,
    /// Whether its exit code could be read: zero where not.
    pub ok: i32,
    pub code: u32,
}

/// What the system says of how a process ended: `None` where it has not, or where it
/// cannot say.
pub fn check_exit_status(pid: i32, query: ProcessQuery) -> (r: Option<ExitInfo>)
    ensures
        r == (if pid <= 0 || !query.opened || query.ok == 0 || query.code == 259 {
            None
        } else {
            Some(ExitInfo { code: Some(query.code as i32), signal: None })
        }),
{
    if pid <= 0 {
        return None;
    }
    if !query.opened {
        return None;
    }
    if query.ok == 0 {
        return None;
    }
    if query.code == still_active() as u32 {
        None
    } else {
        Some(
            ExitInfo {
                code: Some(
                    #[verifier::truncate]
                    (query.code as i32),
                ),
                signal: None,
            },
        )
    }
}

/// Whether a process is alive.
pub fn is_pid_alive(pid: i32, query: ProcessQuery) -> (r: bool)
    ensures
        r == (pid > 0 && query.opened && query.ok != 0 && query.code == 259),
{
    if pid <= 0 {
        return false;
    }
    if !query.opened {
        return false;
    }
    query.ok != 0 && query.code == still_active() as u32
}

} // verus!
