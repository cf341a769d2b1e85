//! Processes and signals on Unix.
use vstd::prelude::*;
use vstd::string::*;

use crate::text;
use crate::text::{from_chars, parse_signed, strip_prefix, text_eq, to_chars, trim};

verus! {

/// How a process ended.
#[derive(Debug, Clone, Copy, PartialEq, Eq, Structural)]
pub struct ExitInfo {
    pub code: Option<i32>,
    pub signal: Option<i32>,
}

/// The numbers of the signals that have a name here.
#[derive(Debug, Clone, Copy, PartialEq, Eq, Structural)]
pub struct SignalNumbers {
    pub term: i32,
    pub kill: i32,
    pub interrupt: i32,
    pub hangup: i32,
    pub quit: i32,
    pub usr1: i32,
    pub usr2: i32,
    pub stop: i32,
    pub cont: i32,
}

/// The numbers of Linux and macOS. Five of them are the same everywhere; for the other four
/// there are three tables.
pub open spec fn unix_numbers(n: SignalNumbers) -> bool {
    &&& n.term == 15
    &&& n.kill == 9
    &&& n.interrupt == 2
    &&& n.hangup == 1
    &&& n.quit == 3
    &&& {
        ||| n.usr1 == 10 && n.usr2 == 12 && n.stop == 19 && n.cont == 18
        ||| n.usr1 == 30 && n.usr2 == 31 && n.stop == 17 && n.cont == 19
        ||| n.usr1 == 16 && n.usr2 == 17 && n.stop == 23 && n.cont == 25
    }
}

/// The signal constants of `libc`, as Linux and macOS have them. `SIGTERM`, `SIGKILL`,
/// `SIGINT`, `SIGHUP` and `SIGQUIT` are the same everywhere. `SIGUSR1`, `SIGUSR2`, `SIGSTOP`
/// and `SIGCONT` are those of one of three tables: most of Linux, macOS with Linux on SPARC,
/// or Linux on MIPS. Which of the tables it is depends on the machine.
#[verifier::external_body]
fn signal_numbers() -> (n: SignalNumbers)
    ensures
        unix_numbers(n),
{
    SignalNumbers {
        term: libc::SIGTERM,
        kill: libc::SIGKILL,
        interrupt: libc::SIGINT,
        hangup: libc::SIGHUP,
        quit: libc::SIGQUIT,
        usr1: libc::SIGUSR1,
        usr2: libc::SIGUSR2,
        stop: libc::SIGSTOP,
        cont: libc::SIGCONT,
    }
}

/// The upper case of a text, as `str::to_uppercase` has it.
pub uninterp spec fn uppercased(s: Seq<char>) -> Seq<char>;

/// The upper case of an ASCII character.
pub open spec fn ascii_upper(c: char) -> char {
    if 'a' <= c <= 'z' {
        (c as u32 - 32) as char
    } else {
        c
    }
}

/// The upper case of a text: known of ASCII characters alone, named otherwise.
pub open spec fn upper_of(s: Seq<char>) -> Seq<char> {
    if vstd::utf8::is_ascii_chars(s) {
        s.map_values(|c: char| ascii_upper(c))
    } else {
        uppercased(s)
    }
}

/// `str::to_uppercase`. The result is named; of a text of ASCII characters alone it is
/// known, each character being replaced by its own upper case.
#[verifier::external_body]
pub(crate) fn uppercase(s: &str) -> (r: String)
    ensures
        r@ == uppercased(s@),
        is_ascii(s) ==> r@ == s@.map_values(|c: char| ascii_upper(c)),
{
    s.to_uppercase()
}

/// A signal that no number and no name stands for.
#[derive(Debug)]
pub struct SignalError {
    pub signal: String,
}

impl SignalError {
    /// What is said to the user.
    pub fn message(&self) -> (r: String)
        ensures
            r@ == "Unknown signal: "@ + self.signal@,
    {
        "Unknown signal: ".to_owned().concat(self.signal.as_str())
    }
}

/// A text without `SIG` in front.
pub open spec fn without_sig(s: Seq<char>) -> Seq<char> {
    match text::after_prefix(s, "SIG"@) {
        Some(rest) => rest,
        None => s,
    }
}

/// The signals that can be named.
#[derive(Debug, Clone, Copy, PartialEq, Eq, Structural)]
pub enum SignalName {
    Term,
    Kill,
    Int,
    Hup,
    Quit,
    Usr1,
    Usr2,
    Stop,
    Cont,
}

/// The signal of a name in upper case.
pub open spec fn signal_named(name: Seq<char>) -> Option<SignalName> {
    if name == "TERM"@ {
        Some(SignalName::Term)
    } else if name == "KILL"@ {
        Some(SignalName::Kill)
    } else if name == "INT"@ {
        Some(SignalName::Int)
    } else if name == "HUP"@ {
        Some(SignalName::Hup)
    } else if name == "QUIT"@ {
        Some(SignalName::Quit)
    } else if name == "USR1"@ {
        Some(SignalName::Usr1)
    } else if name == "USR2"@ {
        Some(SignalName::Usr2)
    } else if name == "STOP"@ {
        Some(SignalName::Stop)
    } else if name == "CONT"@ {
        Some(SignalName::Cont)
    } else {
        None
    }
}

/// Finds the signal of a name in upper case.
pub fn find_signal(name: &str) -> (r: Option<SignalName>)
    ensures
        r == signal_named(name@),
{
    if text_eq(name, "TERM") {
        Some(SignalName::Term)
    } else if text_eq(name, "KILL") {
        Some(SignalName::Kill)
    } else if text_eq(name, "INT") {
        Some(SignalName::Int)
    } else if text_eq(name, "HUP") {
        Some(SignalName::Hup)
    } else if text_eq(name, "QUIT") {
        Some(SignalName::Quit)
    } else if text_eq(name, "USR1") {
        Some(SignalName::Usr1)
    } else if text_eq(name, "USR2") {
        Some(SignalName::Usr2)
    } else if text_eq(name, "STOP") {
        Some(SignalName::Stop)
    } else if text_eq(name, "CONT") {
        Some(SignalName::Cont)
    } else {
        None
    }
}

impl SignalNumbers {
    /// The number of a signal.
    pub open spec fn number(self, name: SignalName) -> i32 {
        match name {
            SignalName::Term => self.term,
            SignalName::Kill => self.kill,
            SignalName::Int => self.interrupt,
            SignalName::Hup => self.hangup,
            SignalName::Quit => self.quit,
            SignalName::Usr1 => self.usr1,
            SignalName::Usr2 => self.usr2,
            SignalName::Stop => self.stop,
            SignalName::Cont => self.cont,
        }
    }

    /// The number of a signal.
    pub fn number_of(&self, name: SignalName) -> (r: i32)
        ensures
            r == self.number(name),
    {
        match name {
            SignalName::Term => self.term,
            SignalName::Kill => self.kill,
            SignalName::Int => self.interrupt,
            SignalName::Hup => self.hangup,
            SignalName::Quit => self.quit,
            SignalName::Usr1 => self.usr1,
            SignalName::Usr2 => self.usr2,
            SignalName::Stop => self.stop,
            SignalName::Cont => self.cont,
        }
    }
}

/// What a text in upper case says as a signal: a number, or a name with `SIG` in front
/// or without.
pub open spec fn signal_of(upper: Seq<char>, n: SignalNumbers) -> Option<int> {
    match text::signed_of(upper) {
        Some(k) => Some(k),
        None => match signal_named(without_sig(upper)) {
            Some(name) => Some(n.number(name) as int),
            None => None,
        },
    }
}

/// Reads a signal from a text in upper case.
pub fn signal_from_upper(upper: &str, n: &SignalNumbers) -> (r: Option<i32>)
    ensures
        r is Some <==> signal_of(upper@, *n) is Some,
        r is Some ==> signal_of(upper@, *n) == Some(r->0 as int),
{
    let chars = to_chars(upper);
    let s = chars.as_slice();
    if let Some(k) = parse_signed(s) {
        return Some(k);
    }
    let name = match strip_prefix(s, "SIG") {
        Some(rest) => from_chars(rest),
        None => from_chars(s),
    };
    match find_signal(name.as_str()) {
        Some(name) => Some(n.number_of(name)),
        None => None,
    }
}

/// The signal that a user asks for: a number, or a name in any case, with `SIG` in front
/// or without.
pub fn parse_signal(signal: &str) -> (r: Result<i32, SignalError>)
    ensures
        exists|n: SignalNumbers| #[trigger]
            unix_numbers(n) && (match r {
                Ok(k) => signal_of(upper_of(text::trimmed(signal@)), n) == Some(k as int),
                Err(e) => signal_of(upper_of(text::trimmed(signal@)), n) is None && e.signal@
                    == signal@,
            }),
{
    let chars = to_chars(signal);
    let s = from_chars(trim(chars.as_slice()));
    let upper = uppercase(s.as_str());
    assert(upper@ == upper_of(s@));
    let n = signal_numbers();
    assert(unix_numbers(n));
    match signal_from_upper(upper.as_str(), &n) {
        Some(k) => Ok(k),
        None => Err(SignalError { signal: signal.to_owned() }),
    }
}

/// A number in decimal holds no character that has another upper case.
proof fn integer_is_upper(n: i32)
    ensures
        upper_of(text::integer(n as int)) == text::integer(n as int),
{
    let s = text::integer(n as int);
    let m = if n < 0 { -n } else { n as int };
    text::decimal_reads_back(m as nat);
    let d = text::decimal(m as nat);
    let f = |c: char| text::is_digit(c);
    assert forall|i: int|
        0 <= i < s.len() implies (#[trigger] s[i] == '-' || text::is_digit(s[i])) by {
        let k = if n < 0 { i - 1 } else { i };
        if k >= 0 {
            assert(f(d[k]));
        }
    }
    assert(s.map_values(|c: char| ascii_upper(c)) =~= s);
}

/// A signal given by its number is that number.
pub proof fn number_is_its_own_signal(n: i32, numbers: SignalNumbers)
    ensures
        signal_of(upper_of(text::trimmed(text::integer(n as int))), numbers) == Some(n as int),
{
    text::integer_is_tight(n as int);
    integer_is_upper(n);
    text::integer_reads_back(n);
}

/// A signal that has a name can be given with `SIG` in front or without.
pub proof fn sig_prefix_is_optional(name: Seq<char>, numbers: SignalNumbers)
    requires
        signal_named(name) is Some,
    ensures
        signal_of(name, numbers) == Some(numbers.number(signal_named(name)->0) as int),
        signal_of("SIG"@ + name, numbers) == signal_of(name, numbers),
{
    reveal_strlit("SIG");
    reveal_strlit("TERM");
    reveal_strlit("KILL");
    reveal_strlit("INT");
    reveal_strlit("HUP");
    reveal_strlit("QUIT");
    reveal_strlit("USR1");
    reveal_strlit("USR2");
    reveal_strlit("STOP");
    reveal_strlit("CONT");
    let f = |c: char| text::is_digit(c);
    let long = "SIG"@ + name;
    assert(long.subrange(0, 3) =~= "SIG"@);
    assert(long.skip(3) =~= name);
    assert(!f(long[0]));
    assert(!f(name[0]));
    assert(text::signed_of(long) is None);
    assert(text::signed_of(name) is None);
    assert(name.len() >= 3 ==> name.subrange(0, 3)[0] == name[0] && name.subrange(0, 3)[1] == name[1]);
}

/// A signal to be sent.
#[derive(Debug, Clone, Copy, PartialEq, Eq, Structural)]
pub struct Kill {
    pub pid: i32,
    pub signal: i32,
}

/// A signal for a process.
pub fn terminate_pid_with_signal(pid: i32, signal: i32) -> (r: Kill)
    ensures
        r == (Kill { pid, signal }),
{
    Kill { pid, signal }
}

/// The signal that asks a process to end.
pub fn terminate_pid(pid: i32) -> (r: Kill)
    ensures
        r == (Kill { pid, signal: 15 }),
{
    let n = signal_numbers();
    terminate_pid_with_signal(pid, n.term)
}

/// How a process is brought to its end.
#[derive(Debug, Clone, Copy, PartialEq, Eq, Structural)]
pub enum Termination {
    /// There is no such process.
    Nothing,
    /// Send a signal that cannot be caught, and be done.
    Force(Kill),
    /// Send a signal, and see whether the process ends.
    Await(Kill),
}

/// How the end of a process begins.
pub open spec fn termination_of(pid: i32, signal: i32) -> Termination {
    if pid <= 0 {
        Termination::Nothing
    } else if signal == 9 {
        Termination::Force(Kill { pid, signal })
    } else {
        Termination::Await(Kill { pid, signal })
    }
}

/// Begins to bring a process to its end.
pub fn terminate_graceful(pid: i32, signal: i32) -> (r: Termination)
    ensures
        r == termination_of(pid, signal),
{
    if pid <= 0 {
        return Termination::Nothing;
    }
    let kill = terminate_pid_with_signal(pid, signal);
    if signal == signal_numbers().kill {
        Termination::Force(kill)
    } else {
        Termination::Await(kill)
    }
}

/// Whether a process that was asked to end has had its time: three seconds.
pub fn time_is_up(waited_millis: u64) -> (r: bool)
    ensures
        r == (waited_millis >= 3000),
{
    waited_millis >= 3000
}

/// What to do while a process is expected to end.
#[derive(Debug, Clone, Copy, PartialEq, Eq, Structural)]
pub enum Waiting {
    /// It has ended.
    Gone,
    /// Look again a little later.
    Again,
    /// The time is up: send this.
    Force(Kill),
}

/// How the end of a process goes on. Once the time is up, whether it is still alive does
/// not matter.
pub open spec fn waiting_of(pid: i32, time_is_up: bool, alive: bool) -> Waiting {
    if time_is_up {
        Waiting::Force(Kill { pid, signal: 9 })
    } else if alive {
        Waiting::Again
    } else {
        Waiting::Gone
    }
}

/// Goes on bringing a process to its end.
pub fn await_end(pid: i32, time_is_up: bool, alive: bool) -> (r: Waiting)
    ensures
        r == waiting_of(pid, time_is_up, alive),
{
    if time_is_up {
        Waiting::Force(terminate_pid_with_signal(pid, signal_numbers().kill))
    } else if alive {
        Waiting::Again
    } else {
        Waiting::Gone
    }
}

/// The signals sent while a process is expected to end: `alive` holds what is seen at
/// each look before the time is up.
pub open spec fn sent_while_waiting(pid: i32, alive: Seq<bool>) -> Seq<Kill>
    decreases alive.len(),
{
    match waiting_of(pid, alive.len() == 0, alive.len() > 0 && alive[0]) {
        Waiting::Gone => Seq::empty(),
        Waiting::Force(kill) => seq![kill],
        Waiting::Again => if alive.len() > 0 {
            sent_while_waiting(pid, alive.drop_first())
        } else {
            Seq::empty()
        },
    }
}

/// The signals sent to a process from the beginning of its end.
pub open spec fn signals_sent(pid: i32, signal: i32, alive: Seq<bool>) -> Seq<Kill> {
    match termination_of(pid, signal) {
        Termination::Nothing => Seq::empty(),
        Termination::Force(kill) => seq![kill],
        Termination::Await(kill) => seq![kill] + sent_while_waiting(pid, alive),
    }
}

/// A process gets the signal that was asked for, and one that cannot be caught after it
/// if, and only if, it was alive at every look until the time was up.
pub proof fn survivor_is_killed(pid: i32, signal: i32, alive: Seq<bool>)
    requires
        pid > 0,
    ensures
        signals_sent(pid, signal, alive) == (if signal == 9 || alive.contains(false) {
            seq![Kill { pid, signal }]
        } else {
            seq![Kill { pid, signal }, Kill { pid, signal: 9 }]
        }),
    decreases alive.len(),
{
    if signal != 9 {
        sent_while_waiting_is(pid, alive);
        if alive.contains(false) {
            assert(seq![Kill { pid, signal }] + Seq::<Kill>::empty() =~= seq![Kill { pid, signal }]);
        } else {
            assert(seq![Kill { pid, signal }] + seq![Kill { pid, signal: 9 }] =~= seq![
                Kill { pid, signal },
                Kill { pid, signal: 9 },
            ]);
        }
    }
}

proof fn sent_while_waiting_is(pid: i32, alive: Seq<bool>)
    ensures
        sent_while_waiting(pid, alive) == (if alive.contains(false) {
            Seq::empty()
        } else {
            seq![Kill { pid, signal: 9 }]
        }),
    decreases alive.len(),
{
    if alive.len() > 0 && alive[0] {
        let rest = alive.drop_first();
        sent_while_waiting_is(pid, rest);
        if alive.contains(false) {
            let i = choose|i: int| 0 <= i < alive.len() && !alive[i];
            assert(rest[i - 1] == false);
        }
        if rest.contains(false) {
            let i = choose|i: int| 0 <= i < rest.len() && !rest[i];
            assert(alive[i + 1] == false);
        }
    }
}

/// `libc::WIFEXITED`, as Linux and macOS have it: the low seven bits of the status are
/// zero.
#[verifier::external_body]
fn exited(status: i32) -> (r: bool)
    ensures
        r == (status & 0x7f == 0),
{
    libc::WIFEXITED(status)
}

/// `libc::WEXITSTATUS`, as Linux and macOS have it: the second byte of the status.
#[verifier::external_body]
fn exit_status(status: i32) -> (r: i32)
    ensures
        r == (status >> 8) & 0xff,
{
    libc::WEXITSTATUS(status)
}

/// `libc::WIFSIGNALED`, as Linux and macOS have it: the low seven bits of the status are
/// neither all zero nor all one.
#[verifier::external_body]
fn signaled(status: i32) -> (r: bool)
    ensures
        r == (status & 0x7f != 0 && status & 0x7f != 0x7f),
{
    libc::WIFSIGNALED(status)
}

/// `libc::WTERMSIG`, as Linux and macOS have it: the low seven bits of the status.
#[verifier::external_body]
fn term_signal(status: i32) -> (r: i32)
    ensures
        r == status & 0x7f,
{
    libc::WTERMSIG(status)
}

/// What a wait status says of how a process ended.
pub open spec fn exit_info(status: i32) -> ExitInfo {
    let low = status & 0x7f;
    ExitInfo {
        code: if low == 0 {
            Some((status >> 8) & 0xff)
        } else {
            None
        },
        signal: if low != 0 && low != 0x7f {
            Some(low)
        } else {
            None
        },
    }
}

/// What `waitpid` said of a process: `None` where it had not ended, or could not be
/// waited for.
pub fn check_exit_status(pid: i32, res: i32, status: i32) -> (r: Option<ExitInfo>)
    ensures
        r == (if pid <= 0 || res <= 0 {
            None
        } else {
            Some(exit_info(status))
        }),
{
    if pid <= 0 {
        return None;
    }
    if res == 0 {
        return None;
    }
    if res < 0 {
        return None;
    }
    let code = if exited(status) {
        Some(exit_status(status))
    } else {
        None
    };
    let signal = if signaled(status) {
        Some(term_signal(status))
    } else {
        None
    };
    Some(ExitInfo { code, signal })
}

/// `libc::EPERM`, which is one on Linux and macOS.
#[verifier::external_body]
fn eperm() -> (r: i32)
    ensures
        r == 1,
{
    libc::EPERM
}

/// Whether a process is alive, from what `kill` with no signal returned and the error
/// number after it: it is where the call went through, or where it was forbidden.
pub fn is_pid_alive(pid: i32, res: i32, errno: i32) -> (r: bool)
    ensures
        r == (pid > 0 && (res == 0 || errno == 1)),
{
    if pid <= 0 {
        return false;
    }
    if res == 0 {
        return true;
    }
    errno == eperm()
}

/// The steps by which a process leaves its terminal.
#[derive(Debug, Clone, Copy, PartialEq, Eq, Structural)]
pub enum DaemonizeStep {
    FirstFork,
    Setsid,
    SecondFork,
}

/// What follows such a step.
#[derive(Debug, Clone, Copy, PartialEq, Eq, Structural)]
pub enum DaemonizeNext {
    /// Take the next step.
    Step(DaemonizeStep),
    /// This is the parent: exit with success.
    Exit,
    /// The process has left its terminal.
    Done,
    ForkFailed,
    SetsidFailed,
}

impl DaemonizeNext {
    /// What is said to the user where a step failed.
    pub fn failure(&self) -> (r: Option<String>)
        ensures
            match self {
                DaemonizeNext::ForkFailed => r is Some && r->0@ == "fork failed"@,
                DaemonizeNext::SetsidFailed => r is Some && r->0@ == "setsid failed"@,
                _ => r is None,
            },
    {
        match self {
            DaemonizeNext::ForkFailed => Some("fork failed".to_owned()),
            DaemonizeNext::SetsidFailed => Some("setsid failed".to_owned()),
            _ => None,
        }
    }
}

/// What follows a step, by what it returned: a fork returns zero in the child.
pub open spec fn after_step(step: DaemonizeStep, res: int) -> DaemonizeNext {
    match step {
        DaemonizeStep::Setsid => if res < 0 {
            DaemonizeNext::SetsidFailed
        } else {
            DaemonizeNext::Step(DaemonizeStep::SecondFork)
        },
        _ => if res < 0 {
            DaemonizeNext::ForkFailed
        } else if res > 0 {
            DaemonizeNext::Exit
        } else if step == DaemonizeStep::FirstFork {
            DaemonizeNext::Step(DaemonizeStep::Setsid)
        } else {
            DaemonizeNext::Done
        },
    }
}

/// Goes on from what a step returned.
pub fn daemonize(step: DaemonizeStep, res: i32) -> (r: DaemonizeNext)
    ensures
        r == after_step(step, res as int),
{
    match step {
        DaemonizeStep::FirstFork => {
            if res < 0 {
                DaemonizeNext::ForkFailed
            } else if res > 0 {
                DaemonizeNext::Exit
            } else {
                DaemonizeNext::Step(DaemonizeStep::Setsid)
            }
        },
        DaemonizeStep::Setsid => {
            if res < 0 {
                DaemonizeNext::SetsidFailed
            } else {
                DaemonizeNext::Step(DaemonizeStep::SecondFork)
            }
        },
        DaemonizeStep::SecondFork => {
            if res < 0 {
                DaemonizeNext::ForkFailed
            } else if res > 0 {
                DaemonizeNext::Exit
            } else {
                DaemonizeNext::Done
            }
        },
    }
}

/// Where the steps end from one of them on, by what the steps from there return.
pub open spec fn daemonized(step: DaemonizeStep, results: Seq<int>) -> DaemonizeNext
    decreases results.len(),
{
    if results.len() == 0 {
        DaemonizeNext::Step(step)
    } else {
        match after_step(step, results[0]) {
            DaemonizeNext::Step(next) => daemonized(next, results.drop_first()),
            other => other,
        }
    }
}

/// A process has left its terminal exactly when it is the child of a child in a session of
/// its own: both forks returned zero, and the session was made between them.
pub proof fn daemon_is_a_grandchild(results: Seq<int>)
    requires
        results.len() == 3,
    ensures
        daemonized(DaemonizeStep::FirstFork, results) == DaemonizeNext::Done <==> results[0] == 0
            && results[1] >= 0 && results[2] == 0,
{
    reveal_with_fuel(daemonized, 4);
    assert(results.drop_first()[0] == results[1]);
    assert(results.drop_first().drop_first()[0] == results[2]);
}

/// Of a process that ended by itself the code is known, and of one that a signal ended the
/// signal, with a dump of its memory or without. Of one that only stopped neither is.
pub proof fn exit_info_is_code_or_signal(code: i32, signal: i32)
    requires
        0 <= code < 256,
        0 < signal < 127,
    ensures
        exit_info((code * 256) as i32).code == Some(code),
        exit_info((code * 256) as i32).signal is None,
        exit_info(signal).signal == Some(signal),
        exit_info(signal).code is None,
        exit_info((signal + 128) as i32).signal == Some(signal),
        exit_info((signal + 128) as i32).code is None,
        exit_info((code * 256 + 127) as i32).signal is None,
        exit_info((code * 256 + 127) as i32).code is None,
{
    let a = (code * 256) as i32;
    let b = (signal + 128) as i32;
    let c = (code * 256 + 127) as i32;
    assert(a & 0x7f == 0 && (a >> 8) & 0xff == code) by (bit_vector)
        requires
            0 <= code < 256,
            a == code * 256,
    ;
    assert(signal & 0x7f == signal) by (bit_vector)
        requires
            0 < signal < 127,
    ;
    assert(b & 0x7f == signal) by (bit_vector)
        requires
            0 < signal < 127,
            b == signal + 128,
    ;
    assert(c & 0x7f == 0x7f) by (bit_vector)
        requires
            0 <= code < 256,
            c == code * 256 + 127,
    ;
}

/// `SIG` in front of a name makes no difference.
pub proof fn sig_in_front_makes_no_difference(name: Seq<char>, n: SignalNumbers)
    requires
        text::signed_of(name) is None,
        !"SIG"@.is_prefix_of(name),
    ensures
        signal_of("SIG"@ + name, n) == signal_of(name, n),
{
    reveal_strlit("SIG");
    let s = "SIG"@ + name;
    assert(s[0] == 'S');
    if text::signed_of(s) is Some {
        text::numbers_are_digits(s, 0, 0);
    }
    text::prefix_comes_off("SIG"@, name, s);
    text::prefix_comes_off("SIG"@, name, name);
    assert(text::after_prefix(name, "SIG"@) is None);
}

/// The upper case of an ASCII text has a capital for each small letter, and every other
/// character as it is.
pub proof fn upper_case_changes_small_letters(s: Seq<char>, i: int)
    requires
        vstd::utf8::is_ascii_chars(s),
        0 <= i < s.len(),
    ensures
        upper_of(s).len() == s.len(),
        'a' <= s[i] <= 'z' ==> upper_of(s)[i] as u32 + 32 == s[i] as u32,
        !('a' <= s[i] <= 'z') ==> upper_of(s)[i] == s[i],
{
}

/// Where there is no process, nothing is sent.
pub proof fn no_process_gets_no_signal(pid: i32, signal: i32, alive: Seq<bool>)
    requires
        pid <= 0,
    ensures
        signals_sent(pid, signal, alive).len() == 0,
{
}

/// A step that failed ends the way to a daemon. The parent of a fork leaves, and the child
/// goes on.
pub proof fn failed_step_ends_the_way(step: DaemonizeStep, res: int)
    ensures
        res < 0 ==> after_step(step, res) == DaemonizeNext::SetsidFailed || after_step(step, res)
            == DaemonizeNext::ForkFailed,
        res < 0 ==> (after_step(step, res) == DaemonizeNext::SetsidFailed <==> step
            == DaemonizeStep::Setsid),
        res > 0 && step != DaemonizeStep::Setsid ==> after_step(step, res) == DaemonizeNext::Exit,
        res >= 0 && step == DaemonizeStep::Setsid ==> after_step(step, res) == DaemonizeNext::Step(
            DaemonizeStep::SecondFork,
        ),
        res == 0 && step == DaemonizeStep::FirstFork ==> after_step(step, res) == DaemonizeNext::Step(
            DaemonizeStep::Setsid,
        ),
        res == 0 && step == DaemonizeStep::SecondFork ==> after_step(step, res) == DaemonizeNext::Done,
{
}

proof fn named_signal(name: Seq<char>, n: SignalNumbers)
    requires
        name.len() > 0,
        'A' <= name[0] <= 'Z',
        name[0] != 'S' || name[1] != 'I',
    ensures
        signal_of(name, n) == (match signal_named(name) {
            Some(x) => Some(n.number(x) as int),
            None => None,
        }),
{
    reveal_strlit("SIG");
    if text::signed_of(name) is Some {
        text::numbers_are_digits(name, 0, 0);
    }
    if "SIG"@.is_prefix_of(name) {
        assert(name[0] == "SIG"@[0]);
        assert(name[1] == "SIG"@[1]);
    }
}

/// Each signal goes by its own name.
pub proof fn signals_go_by_their_names(n: SignalNumbers)
    ensures
        signal_of("TERM"@, n) == Some(n.term as int),
        signal_of("KILL"@, n) == Some(n.kill as int),
        signal_of("INT"@, n) == Some(n.interrupt as int),
        signal_of("HUP"@, n) == Some(n.hangup as int),
        signal_of("QUIT"@, n) == Some(n.quit as int),
        signal_of("USR1"@, n) == Some(n.usr1 as int),
        signal_of("USR2"@, n) == Some(n.usr2 as int),
        signal_of("STOP"@, n) == Some(n.stop as int),
        signal_of("CONT"@, n) == Some(n.cont as int),
{
    reveal_strlit("TERM");
    reveal_strlit("KILL");
    reveal_strlit("INT");
    reveal_strlit("HUP");
    reveal_strlit("QUIT");
    reveal_strlit("USR1");
    reveal_strlit("USR2");
    reveal_strlit("STOP");
    reveal_strlit("CONT");
    assert("KILL"@[0] != "TERM"@[0]);
    assert("INT"@.len() != "TERM"@.len());
    assert("INT"@.len() != "KILL"@.len());
    assert("HUP"@.len() != "TERM"@.len());
    assert("HUP"@.len() != "KILL"@.len());
    assert("HUP"@[0] != "INT"@[0]);
    assert("QUIT"@[0] != "TERM"@[0]);
    assert("QUIT"@[0] != "KILL"@[0]);
    assert("QUIT"@.len() != "INT"@.len());
    assert("QUIT"@.len() != "HUP"@.len());
    assert("USR1"@[0] != "TERM"@[0]);
    assert("USR1"@[0] != "KILL"@[0]);
    assert("USR1"@.len() != "INT"@.len());
    assert("USR1"@.len() != "HUP"@.len());
    assert("USR1"@[0] != "QUIT"@[0]);
    assert("USR2"@[0] != "TERM"@[0]);
    assert("USR2"@[0] != "KILL"@[0]);
    assert("USR2"@.len() != "INT"@.len());
    assert("USR2"@.len() != "HUP"@.len());
    assert("USR2"@[0] != "QUIT"@[0]);
    assert("USR2"@[3] != "USR1"@[3]);
    assert("STOP"@[0] != "TERM"@[0]);
    assert("STOP"@[0] != "KILL"@[0]);
    assert("STOP"@.len() != "INT"@.len());
    assert("STOP"@.len() != "HUP"@.len());
    assert("STOP"@[0] != "QUIT"@[0]);
    assert("STOP"@[0] != "USR1"@[0]);
    assert("STOP"@[0] != "USR2"@[0]);
    assert("CONT"@[0] != "TERM"@[0]);
    assert("CONT"@[0] != "KILL"@[0]);
    assert("CONT"@.len() != "INT"@.len());
    assert("CONT"@.len() != "HUP"@.len());
    assert("CONT"@[0] != "QUIT"@[0]);
    assert("CONT"@[0] != "USR1"@[0]);
    assert("CONT"@[0] != "USR2"@[0]);
    assert("CONT"@[0] != "STOP"@[0]);
    named_signal("TERM"@, n);
    named_signal("KILL"@, n);
    named_signal("INT"@, n);
    named_signal("HUP"@, n);
    named_signal("QUIT"@, n);
    named_signal("USR1"@, n);
    named_signal("USR2"@, n);
    named_signal("STOP"@, n);
    named_signal("CONT"@, n);
}

/// No other name is that of a signal.
pub proof fn other_names_are_no_signals(name: Seq<char>, n: SignalNumbers)
    requires
        text::signed_of(name) is None,
        !"SIG"@.is_prefix_of(name),
        name != "TERM"@,
        name != "KILL"@,
        name != "INT"@,
        name != "HUP"@,
        name != "QUIT"@,
        name != "USR1"@,
        name != "USR2"@,
        name != "STOP"@,
        name != "CONT"@,
    ensures
        signal_of(name, n) is None,
        signal_of("SIG"@ + name, n) is None,
{
    sig_in_front_makes_no_difference(name, n);
    text::prefix_comes_off("SIG"@, name, name);
    assert(text::after_prefix(name, "SIG"@) is None);
}

} // verus!
