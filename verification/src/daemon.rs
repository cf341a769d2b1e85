//! How the daemon starts, and how it is found again.
use vstd::prelude::*;
use vstd::string::*;

use crate::text;
use crate::text::{parse_signed, to_chars, trim, write_integer};

verus! {

/// The process that a pid file names: none where there is no file, or where it holds no
/// number, or zero.
pub open spec fn pid_in_file(content: Option<Seq<char>>) -> Option<int> {
    match content {
        None => None,
        Some(s) => match text::signed_of(text::trimmed(s)) {
            Some(pid) => if pid == 0 {
                None
            } else {
                Some(pid)
            },
            None => None,
        },
    }
}

/// Reads a pid file.
pub fn read_pid_file(content: Option<&str>) -> (r: Option<i32>)
    ensures
        ({
            let expected = pid_in_file(text::opt_str(content));
            (r is Some <==> expected is Some) && (r is Some ==> expected == Some(r->0 as int))
        }),
{
    match content {
        None => None,
        Some(s) => {
            let chars = to_chars(s);
            match parse_signed(trim(chars.as_slice())) {
                Some(pid) => if pid == 0 {
                    None
                } else {
                    Some(pid)
                },
                None => None,
            }
        },
    }
}

/// Another daemon runs.
#[derive(Debug, Clone, Copy, PartialEq, Eq, Structural)]
pub struct AlreadyRunning {
    pub pid: i32,
}

impl AlreadyRunning {
    /// What is said to the user.
    pub fn message(&self) -> (r: String)
        ensures
            r@ == "runner already running with pid "@ + text::integer(self.pid as int),
    {
        "runner already running with pid ".to_owned().concat(write_integer(self.pid).as_str())
    }
}

/// What a daemon writes to its pid file, unless the file names another process that is
/// alive.
pub fn write_pid_file(pid: i32, existing: Option<i32>, existing_alive: bool) -> (r: Result<
    String,
    AlreadyRunning,
>)
    ensures
        match r {
            Ok(content) => content@ == text::integer(pid as int) && !(existing is Some && existing->0
                != pid && existing_alive),
            Err(e) => existing == Some(e.pid) && e.pid != pid && existing_alive,
        },
{
    if let Some(other) = existing {
        if other != pid && existing_alive {
            return Err(AlreadyRunning { pid: other });
        }
    }
    Ok(write_integer(pid))
}

/// A pid file gives back the process that was written to it.
pub proof fn pid_file_reads_back(pid: i32)
    requires
        pid != 0,
    ensures
        pid_in_file(Some(text::integer(pid as int))) == Some(pid as int),
{
    text::integer_reads_back(pid);
    text::integer_is_tight(pid as int);
}

/// The arguments with which the daemon is started; none where it runs already.
pub fn ensure_daemon_running(pid: Option<i32>, alive: bool) -> (r: Option<Vec<String>>)
    ensures
        r is None <==> pid is Some && alive,
        r is Some ==> text::texts((r->0)@) == seq!["daemon"@],
{
    if pid.is_some() && alive {
        return None;
    }
    let args = vec!["daemon".to_owned()];
    assert(text::texts(args@) =~= seq!["daemon"@]);
    Some(args)
}

/// The steps of a daemon's start.
#[derive(Debug, Clone, Copy, PartialEq, Eq, Structural)]
pub enum DaemonStep {
    EnsureDirs,
    Daemonize,
    WritePidFile,
    /// Pass over the apps for ever, with a live screen or without.
    Loop {
        watch: bool,
    },
}

/// Starts the daemon. In the foreground it keeps its terminal.
pub fn cmd_daemon(foreground: bool, watch: bool) -> (r: Vec<DaemonStep>)
    ensures
        r@ == (if foreground {
            seq![DaemonStep::EnsureDirs, DaemonStep::WritePidFile, DaemonStep::Loop { watch }]
        } else {
            seq![
                DaemonStep::EnsureDirs,
                DaemonStep::Daemonize,
                DaemonStep::WritePidFile,
                DaemonStep::Loop { watch },
            ]
        }),
{
    let mut r: Vec<DaemonStep> = Vec::new();
    r.push(DaemonStep::EnsureDirs);
    if !foreground {
        r.push(DaemonStep::Daemonize);
    }
    r.push(DaemonStep::WritePidFile);
    r.push(DaemonStep::Loop { watch });
    r
}

/// A pid file names a process as it stands, with white space around it or without, and none
/// where it holds zero or white space alone.
pub proof fn pid_file_ignores_white_space(front: Seq<char>, pid: i32, back: Seq<char>)
    requires
        text::blank(front),
        text::blank(back),
    ensures
        pid != 0 ==> pid_in_file(Some(front + text::integer(pid as int) + back)) == Some(pid as int),
        pid == 0 ==> pid_in_file(Some(front + text::integer(pid as int) + back)) is None,
        pid_in_file(Some(front)) is None,
        pid_in_file(None) is None,
{
    let none = Seq::<char>::empty();
    text::integer_reads_back(pid);
    text::integer_is_tight(pid as int);
    text::trimming_takes_white_space_alone(front, text::integer(pid as int), back);
    text::trimming_takes_white_space_alone(front, none, none);
    assert(front + none + none =~= front);
}

/// What a pid file names is a number that the file holds, and never zero.
pub proof fn pid_file_names_a_number(front: Seq<char>, content: Seq<char>, back: Seq<char>, i: int)
    requires
        text::blank(front),
        text::blank(back),
        text::tight(content),
        pid_in_file(Some(front + content + back)) is Some,
        0 <= i < content.len(),
    ensures
        '0' <= content[i] <= '9' || (i == 0 && (content[0] == '+' || content[0] == '-')),
        pid_in_file(Some(front + content + back)) != Some(0int),
        pid_in_file(Some(front + content + back)) == text::signed_of(content),
{
    text::trimming_takes_white_space_alone(front, content, back);
    text::numbers_are_digits(content, 0, i);
}

} // verus!
