//! Signals, exits and the ways of ending processes.
use alwaysrunning::unix::{
    self, await_end, check_exit_status, daemonize, is_pid_alive, terminate_graceful, terminate_pid,
    terminate_pid_with_signal, time_is_up, DaemonizeNext, DaemonizeStep, ExitInfo, Kill, Termination, Waiting,
};
use alwaysrunning::windows::{self, ProcessQuery};

#[test]
fn parse_signal_variants() {
    assert_eq!(unix::parse_signal("TERM").unwrap(), libc::SIGTERM);
    assert_eq!(unix::parse_signal("SIGKILL").unwrap(), libc::SIGKILL);
    assert_eq!(unix::parse_signal("2").unwrap(), 2);
}

#[test]
fn parse_signal_variants_windows() {
    assert!(windows::parse_signal("TERM").is_ok());
    assert!(windows::parse_signal("KILL").is_ok());
}

#[test]
fn every_named_signal_has_its_number() {
    let all = [
        ("term", libc::SIGTERM),
        ("KILL", libc::SIGKILL),
        ("SigInt", libc::SIGINT),
        ("sighup", libc::SIGHUP),
        (" QUIT ", libc::SIGQUIT),
        ("usr1", libc::SIGUSR1),
        ("SIGUSR2", libc::SIGUSR2),
        ("stop", libc::SIGSTOP),
        ("CONT", libc::SIGCONT),
        ("-7", -7),
        ("+15", 15),
    ];
    for (name, number) in all {
        assert_eq!(unix::parse_signal(name).unwrap(), number, "{}", name);
        assert_eq!(windows::parse_signal(name).unwrap(), 0, "{}", name);
    }
}

#[test]
fn unknown_signals_are_refused() {
    for bad in ["", "SIG", "SIGSIGTERM", "TERM1", "9999999999", "tęrm", "\u{df}"] {
        let err = unix::parse_signal(bad).unwrap_err();
        assert_eq!(err.message(), format!("Unknown signal: {}", bad));
        assert_eq!(windows::parse_signal(bad).unwrap_err().message(), format!("Unknown signal: {}", bad));
    }
    assert_eq!(unix::parse_signal(" nope ").unwrap_err().message(), "Unknown signal:  nope ");
}

#[test]
fn letters_with_an_ascii_upper_case_count() {
    // U+017F, the long s, has the upper case S
    assert_eq!(unix::parse_signal("\u{17f}top").unwrap(), libc::SIGSTOP);
}

#[test]
fn exits_are_read_from_the_wait_status() {
    assert_eq!(check_exit_status(5, 5, 0), Some(ExitInfo { code: Some(0), signal: None }));
    assert_eq!(check_exit_status(5, 5, 3 << 8), Some(ExitInfo { code: Some(3), signal: None }));
    assert_eq!(check_exit_status(5, 5, 255 << 8), Some(ExitInfo { code: Some(255), signal: None }));
    assert_eq!(check_exit_status(5, 5, 9), Some(ExitInfo { code: None, signal: Some(9) }));
    assert_eq!(check_exit_status(5, 5, 11 | 0x80), Some(ExitInfo { code: None, signal: Some(11) }));
    assert_eq!(check_exit_status(5, 5, 0x137f), Some(ExitInfo { code: None, signal: None }));
    assert_eq!(check_exit_status(5, 0, 9), None);
    assert_eq!(check_exit_status(5, -1, 9), None);
    assert_eq!(check_exit_status(0, 5, 9), None);
    assert_eq!(check_exit_status(-3, 5, 9), None);
}

#[test]
fn a_forbidden_process_is_alive() {
    assert!(is_pid_alive(7, 0, 0));
    assert!(is_pid_alive(7, -1, libc::EPERM));
    assert!(!is_pid_alive(7, -1, libc::ESRCH));
    assert!(!is_pid_alive(0, 0, 0));
    assert!(!is_pid_alive(-7, 0, 0));
}

#[test]
fn a_survivor_is_killed() {
    assert_eq!(terminate_graceful(7, libc::SIGHUP), Termination::Await(Kill { pid: 7, signal: libc::SIGHUP }));
    assert_eq!(await_end(7, false, true), Waiting::Again);
    assert_eq!(await_end(7, false, false), Waiting::Gone);
    assert_eq!(await_end(7, true, true), Waiting::Force(Kill { pid: 7, signal: libc::SIGKILL }));
    assert_eq!(await_end(7, true, false), Waiting::Force(Kill { pid: 7, signal: libc::SIGKILL }));
    assert_eq!(terminate_graceful(7, libc::SIGKILL), Termination::Force(Kill { pid: 7, signal: libc::SIGKILL }));
    assert_eq!(terminate_graceful(0, libc::SIGTERM), Termination::Nothing);
    assert_eq!(terminate_pid(3), Kill { pid: 3, signal: libc::SIGTERM });
    assert_eq!(terminate_pid_with_signal(3, 1), Kill { pid: 3, signal: 1 });
}

#[test]
fn a_process_has_three_seconds() {
    assert!(!time_is_up(0));
    assert!(!time_is_up(2999));
    assert!(time_is_up(3000));
    assert!(time_is_up(3001));
}

#[test]
fn a_daemon_forks_twice() {
    assert_eq!(daemonize(DaemonizeStep::FirstFork, 0), DaemonizeNext::Step(DaemonizeStep::Setsid));
    assert_eq!(daemonize(DaemonizeStep::FirstFork, 4), DaemonizeNext::Exit);
    assert_eq!(daemonize(DaemonizeStep::Setsid, 0), DaemonizeNext::Step(DaemonizeStep::SecondFork));
    assert_eq!(daemonize(DaemonizeStep::Setsid, 4), DaemonizeNext::Step(DaemonizeStep::SecondFork));
    assert_eq!(daemonize(DaemonizeStep::SecondFork, 0), DaemonizeNext::Done);
    assert_eq!(daemonize(DaemonizeStep::SecondFork, 4), DaemonizeNext::Exit);
    assert_eq!(daemonize(DaemonizeStep::FirstFork, -1).failure().unwrap(), "fork failed");
    assert_eq!(daemonize(DaemonizeStep::SecondFork, -1).failure().unwrap(), "fork failed");
    assert_eq!(daemonize(DaemonizeStep::Setsid, -1).failure().unwrap(), "setsid failed");
    assert_eq!(DaemonizeNext::Done.failure(), None);
}

fn query(opened: bool, ok: i32, code: u32) -> ProcessQuery {
    ProcessQuery { opened, ok, code }
}

#[test]
fn windows_processes_are_judged_by_their_exit_code() {
    assert!(windows::is_pid_alive(4, query(true, 1, 259)));
    assert!(!windows::is_pid_alive(4, query(true, 1, 0)));
    assert!(!windows::is_pid_alive(4, query(true, 0, 259)));
    assert!(!windows::is_pid_alive(4, query(false, 1, 259)));
    assert!(!windows::is_pid_alive(0, query(true, 1, 259)));
    assert_eq!(windows::check_exit_status(4, query(true, 1, 259)), None);
    assert_eq!(windows::check_exit_status(4, query(true, 0, 1)), None);
    assert_eq!(windows::check_exit_status(4, query(false, 1, 1)), None);
    assert_eq!(windows::check_exit_status(0, query(true, 1, 1)), None);
    assert_eq!(
        windows::check_exit_status(4, query(true, 1, 0xffff_ffff)),
        Some(ExitInfo { code: Some(-1), signal: None })
    );
    assert_eq!(windows::check_exit_status(4, query(true, 1, 3)), Some(ExitInfo { code: Some(3), signal: None }));
}

#[test]
fn windows_ends_processes_by_force() {
    assert_eq!(windows::terminate_pid(4), Some(4));
    assert_eq!(windows::terminate_pid(0), None);
    assert_eq!(windows::terminate_graceful(4, 15), Some(4));
    assert_eq!(windows::terminate_graceful(-4, 15), None);
    assert_eq!(windows::terminate_pid_with_signal(4, 9), Some(4));
}
