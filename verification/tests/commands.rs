//! What the commands do.
use alwaysrunning::autostart::{
    cmd_install, cmd_uninstall, daemon_output_path, unsupported, Arg, Call, Os,
};
use alwaysrunning::commands::{
    cmd_delete, cmd_export, cmd_import, cmd_restart, cmd_run, cmd_start, cmd_stop, env_path, run_in_foreground,
    CommandError, Effect, Foreground,
};
use alwaysrunning::model::{AppConfig, AppRuntime, InstanceRuntime, Runtime, State};
use alwaysrunning::paths::{app_dir, base_dir, ensure_dirs, log_path, pid_path, runtime_path, state_path};
use alwaysrunning::registry::select;
use alwaysrunning::supervise::to_launch;

fn app(name: &str, paused: bool) -> AppConfig {
    AppConfig {
        name: name.to_string(),
        cmd: format!("./{}", name),
        args: Vec::new(),
        instances: 2,
        created_at: 1,
        env_file: None,
        clean_env: false,
        paused,
    }
}

fn state(names: &[&str]) -> State {
    State { apps: names.iter().map(|n| app(n, false)).collect() }
}

fn runtime(list: &[(&str, &[i32])]) -> Runtime {
    let mut r = Runtime::default();
    for (name, pids) in list {
        let mut rt = AppRuntime::default();
        for (i, pid) in pids.iter().enumerate() {
            rt.insert(i, InstanceRuntime { pid: *pid, ..InstanceRuntime::default() });
        }
        r.insert(name.to_string(), rt);
    }
    r
}

fn show_state(s: &State) -> String {
    let parts: Vec<String> = s
        .apps
        .iter()
        .map(|a| format!("{}{}x{}", if a.paused { "!" } else { "" }, a.name, a.instances))
        .collect();
    parts.join(" ")
}

fn show(effects: &[Effect]) -> Vec<String> {
    effects
        .iter()
        .map(|e| match e {
            Effect::Print(s) => format!("print {}", s),
            Effect::WriteState(s) => format!("state [{}]", show_state(s)),
            Effect::WriteRuntime(r) => {
                let names: Vec<&str> = r.apps.iter().map(|(n, _)| n.as_str()).collect();
                format!("runtime [{}]", names.join(" "))
            }
            Effect::Export { file, state } => format!("export {} [{}]", file, show_state(state)),
            Effect::EndGracefully { pid, signal } => format!("end {} by {}", pid, signal),
            Effect::End { pid } => format!("end {}", pid),
            Effect::Install => "install".to_string(),
            Effect::EnsureDaemon => "daemon".to_string(),
            Effect::Foreground => "foreground".to_string(),
        })
        .collect()
}

fn run(name: &str, instances: usize, foreground: bool, no_autostart: bool) -> Result<Vec<Effect>, CommandError> {
    cmd_run(
        name,
        "./bin",
        &vec!["-v".to_string()],
        instances,
        Some("/x/.env".to_string()),
        true,
        foreground,
        no_autostart,
        state(&["a", "b"]),
        77,
    )
}

#[test]
fn running_registers_an_app() {
    assert_eq!(
        show(&run("c", 1, false, false).unwrap()),
        vec!["state [ax2 bx2 cx1]", "install", "daemon", "print OK: 'c' -> ./bin (1 instance)"]
    );
    assert_eq!(
        show(&run("a", 3, false, true).unwrap()),
        vec!["state [bx2 ax3]", "daemon", "print OK: 'a' -> ./bin (3 instances)"]
    );
    assert_eq!(show(&run("c", 1, true, true).unwrap()), vec!["state [ax2 bx2 cx1]", "foreground"]);
    match &run("c", 4, false, true).unwrap()[0] {
        Effect::WriteState(s) => {
            let c = &s.apps[2];
            assert_eq!((c.name.as_str(), c.cmd.as_str(), c.instances, c.created_at), ("c", "./bin", 4, 77));
            assert_eq!(c.args, vec!["-v"]);
            assert_eq!(c.env_file.as_deref(), Some("/x/.env"));
            assert!(c.clean_env && !c.paused);
        }
        other => panic!("{:?}", other),
    }
}

#[test]
fn zero_instances_are_refused() {
    assert_eq!(run("c", 0, false, false).unwrap_err().message(), "--instances must be >= 1");
    assert_eq!(cmd_start("a", Some(0), state(&["a"])).unwrap_err().message(), "--instances must be >= 1");
}

#[test]
fn the_foreground_attaches_to_a_daemon() {
    assert_eq!(run_in_foreground(Some(3), true), Foreground::Attach);
    assert_eq!(run_in_foreground(Some(3), false), Foreground::Daemon);
    assert_eq!(run_in_foreground(None, false), Foreground::Daemon);
    assert_eq!(
        Foreground::Attach.message(),
        "Runner already running in background. Attaching status screen..."
    );
    assert_eq!(Foreground::Daemon.message(), "Running in foreground. Press Ctrl+C to exit.");
}

#[test]
fn starting_resumes_an_app() {
    let s = State { apps: vec![app("a", true), app("b", true)] };
    assert_eq!(show(&cmd_start("b", None, s).unwrap()), vec!["state [!ax2 bx2]", "daemon", "print Started b"]);
    let s = State { apps: vec![app("a", true)] };
    assert_eq!(show(&cmd_start("a", Some(5), s).unwrap()), vec!["state [ax5]", "daemon", "print Started a"]);
    let err = cmd_start("x", Some(0), state(&["a"])).unwrap_err();
    assert_eq!(err.message(), "No app named 'x' registered. Use `runner run` first.");
}

#[test]
fn stopping_pauses_and_ends() {
    let r = runtime(&[("a", &[10, 0, 12]), ("b", &[20])]);
    assert_eq!(
        show(&cmd_stop(Some("a"), false, 15, state(&["a", "b"]), &r).unwrap()),
        vec!["end 10 by 15", "end 12 by 15", "print Stopped a", "state [!ax2 bx2]"]
    );
    assert_eq!(
        show(&cmd_stop(None, true, 1, state(&["a", "b"]), &r).unwrap()),
        vec![
            "end 10 by 1",
            "end 12 by 1",
            "print Stopped a",
            "end 20 by 1",
            "print Stopped b",
            "state [!ax2 !bx2]"
        ]
    );
    assert_eq!(
        show(&cmd_stop(Some("x"), false, 15, state(&["x"]), &r).unwrap()),
        vec!["print No runtime for x", "state [!xx2]"]
    );
    let err = cmd_stop(None, false, 15, state(&["a"]), &r).unwrap_err();
    assert_eq!(err.message(), "Provide an app name or use --all.");
}

#[test]
fn all_goes_before_a_name() {
    let r = runtime(&[("a", &[10])]);
    assert_eq!(
        show(&cmd_stop(Some("zzz"), true, 15, state(&["a"]), &r).unwrap()),
        vec!["end 10 by 15", "print Stopped a", "state [!ax2]"]
    );
}

#[test]
fn restarting_resumes_and_ends() {
    let r = runtime(&[("a", &[10]), ("b", &[20])]);
    let s = State { apps: vec![app("a", true), app("b", true)] };
    assert_eq!(
        show(&cmd_restart(Some("a"), false, 15, s, &r).unwrap()),
        vec!["end 10 by 15", "state [ax2 !bx2]", "daemon", "print Restarted a"]
    );
    let s = State { apps: vec![app("a", true), app("b", true)] };
    assert_eq!(
        show(&cmd_restart(None, true, 9, s, &r).unwrap()),
        vec!["end 10 by 9", "end 20 by 9", "state [ax2 bx2]", "daemon", "print Restarted all"]
    );
    assert_eq!(
        show(&cmd_restart(Some("x"), false, 9, state(&["a"]), &r).unwrap()),
        vec!["state [ax2]", "daemon", "print Restarted x"]
    );
    assert!(matches!(cmd_restart(None, false, 9, state(&["a"]), &r), Err(CommandError::NoTarget)));
}

#[test]
fn deleting_forgets_an_app() {
    let r = || runtime(&[("a", &[10, 11]), ("b", &[20])]);
    assert_eq!(
        show(&cmd_delete(Some("a"), false, state(&["a", "b"]), r()).unwrap()),
        vec!["end 10", "end 11", "print Deleted a", "state [bx2]", "runtime [b]"]
    );
    assert_eq!(
        show(&cmd_delete(None, true, state(&["a", "b"]), r()).unwrap()),
        vec!["end 10", "end 11", "print Deleted a", "end 20", "print Deleted b", "state []", "runtime []"]
    );
    assert_eq!(
        show(&cmd_delete(Some("x"), false, state(&["a", "x"]), r()).unwrap()),
        vec!["print No runtime for x", "state [ax2]", "runtime [a b]"]
    );
    assert!(matches!(cmd_delete(None, false, state(&["a"]), r()), Err(CommandError::NoTarget)));
}

#[test]
fn an_export_can_be_imported() {
    let out = cmd_export("f.json", None, state(&["a", "b", "c"]));
    assert_eq!(show(&out), vec!["export f.json [ax2 bx2 cx2]", "print Exported f.json"]);
    let exported = match out.into_iter().next() {
        Some(Effect::Export { state, .. }) => state,
        other => panic!("{:?}", other),
    };
    assert_eq!(
        show(&cmd_import("f.json", true, true, exported, state(&["x"]))),
        vec!["state [ax2 bx2 cx2]", "daemon", "print Imported f.json"]
    );
    assert_eq!(
        show(&cmd_export("f", Some("b"), state(&["a", "b", "c"]))),
        vec!["export f [bx2]", "print Exported f"]
    );
    assert_eq!(show(&cmd_export("f", Some("z"), state(&["a"]))), vec!["export f []", "print Exported f"]);
}

#[test]
fn an_import_can_start_paused_apps() {
    let paused = || State { apps: vec![app("a", true), app("b", false)] };
    assert_eq!(
        show(&cmd_import("f", false, true, paused(), State { apps: vec![app("x", true)] })),
        vec!["state [!xx2 ax2 bx2]", "daemon", "print Imported f"]
    );
    assert_eq!(
        show(&cmd_import("f", true, false, paused(), state(&["x"]))),
        vec!["state [!ax2 bx2]", "print Imported f"]
    );
    let started = written(cmd_import("f", true, true, paused(), state(&[])));
    assert_eq!(to_launch(&mut AppRuntime::default(), &started.apps[0]), vec![0, 1]);
}

#[test]
fn a_relative_env_file_is_joined() {
    let path = |absolute: bool| env_path("given".to_string(), absolute, "joined".to_string());
    assert_eq!(path(true), "given");
    assert_eq!(path(false), "joined");
}

#[test]
fn what_deleting_writes_is_in_order() {
    let r = runtime(&[("c", &[30]), ("a", &[10]), ("b", &[20])]);
    let effects = cmd_delete(Some("b"), false, state(&["a", "b", "c"]), r).unwrap();
    match effects.last() {
        Some(Effect::WriteRuntime(r)) => {
            let names: Vec<&str> = r.apps.iter().map(|(n, _)| n.as_str()).collect();
            assert_eq!(names, vec!["a", "c"]);
        }
        other => panic!("{:?}", other),
    }
}

#[test]
fn an_import_merges_by_name() {
    assert_eq!(
        show(&cmd_import("f", false, false, state(&["b", "d", "b"]), state(&["a", "b", "c"]))),
        vec!["state [ax2 cx2 dx2 bx2]", "print Imported f"]
    );
    assert_eq!(
        show(&cmd_import("f", false, false, state(&["a", "b"]), state(&["a", "b"]))),
        vec!["state [ax2 bx2]", "print Imported f"]
    );
}

fn written(effects: Vec<Effect>) -> State {
    for e in effects {
        if let Effect::WriteState(s) = e {
            return s;
        }
    }
    panic!("no state was written");
}

#[test]
fn stopping_and_starting_resumes() {
    let r = Runtime::default();
    let stopped = written(cmd_stop(Some("b"), false, 15, state(&["a", "b", "c"]), &r).unwrap());
    assert_eq!(show_state(&stopped), "ax2 !bx2 cx2");
    let mut rt = AppRuntime::default();
    assert_eq!(to_launch(&mut rt, &stopped.apps[1]), Vec::<usize>::new());
    let started = written(cmd_start("b", None, stopped).unwrap());
    assert_eq!(show_state(&started), "ax2 bx2 cx2");
    assert_eq!(to_launch(&mut rt, &started.apps[1]), vec![0, 1]);
}

#[test]
fn logs_of_two_instances_never_meet() {
    assert_ne!(log_path("a", 1), log_path("a", 11));
    assert_ne!(log_path("a", 1), log_path("b", 1));
}

#[test]
fn apps_are_selected_by_name() {
    let names = |v: Vec<AppConfig>| v.iter().map(|a| a.name.clone()).collect::<Vec<String>>();
    assert_eq!(names(select(state(&["a", "b", "a"]).apps, Some("a"))), vec!["a", "a"]);
    assert_eq!(names(select(state(&["a", "b"]).apps, None)), vec!["a", "b"]);
}

#[test]
fn everything_lies_in_one_directory() {
    assert_eq!(base_dir(), vec![".alwaysrunning"]);
    assert_eq!(ensure_dirs(), vec![vec![".alwaysrunning", "apps"], vec![".alwaysrunning", "run"]]);
    assert_eq!(state_path(), vec![".alwaysrunning", "state.json"]);
    assert_eq!(runtime_path(), vec![".alwaysrunning", "runtime.json"]);
    assert_eq!(pid_path(), vec![".alwaysrunning", "run", "daemon.pid"]);
    assert_eq!(app_dir("x"), vec![".alwaysrunning", "apps", "x"]);
    assert_eq!(log_path("x", 12), vec![".alwaysrunning", "apps", "x", "logs", "instance-12.log"]);
    assert_eq!(daemon_output_path("out"), vec![".alwaysrunning", "run/daemon.out"]);
}

fn show_calls(calls: &[Call]) -> Vec<String> {
    calls
        .iter()
        .map(|c| {
            let mut words = vec![c.program.clone()];
            for a in &c.args {
                words.push(match a {
                    Arg::Text(s) => s.clone(),
                    Arg::File => "FILE".to_string(),
                });
            }
            words.join(" ")
        })
        .collect()
}

#[test]
fn linux_starts_the_daemon_by_systemd() {
    let i = cmd_install(Os::Linux, "/bin/runner", "o", "e", 5).unwrap();
    assert_eq!(i.path, vec![".config/systemd/user/alwaysrunning-runner.service"]);
    assert_eq!(
        i.content,
        "[Unit]\nDescription=AlwaysRunning runner daemon\n\n[Service]\nExecStart=/bin/runner daemon --foreground\nRestart=always\n\n[Install]\nWantedBy=default.target\n"
    );
    assert_eq!(
        show_calls(&i.calls),
        vec![
            "systemctl --user daemon-reload",
            "systemctl --user enable --now alwaysrunning-runner.service"
        ]
    );
    let u = cmd_uninstall(Os::Linux, 5).unwrap();
    assert_eq!(u.path, i.path);
    assert_eq!(show_calls(&u.calls), vec!["systemctl --user disable --now alwaysrunning-runner.service"]);
}

#[test]
fn macos_starts_the_daemon_by_launchd() {
    let i = cmd_install(Os::Macos, "/bin/runner", "/o", "/e", 501).unwrap();
    assert_eq!(i.path, vec!["Library/LaunchAgents/com.alwaysrunning.runner.plist"]);
    let lines: Vec<&str> = i.content.split('\n').collect();
    assert_eq!(
        lines,
        vec![
            "<?xml version=\"1.0\" encoding=\"UTF-8\"?>",
            "<!DOCTYPE plist PUBLIC \"-//Apple//DTD PLIST 1.0//EN\" \"http://www.apple.com/DTDs/PropertyList-1.0.dtd\">",
            "<plist version=\"1.0\">",
            "<dict>",
            "<key>Label</key>",
            "<string>com.alwaysrunning.runner</string>",
            "<key>ProgramArguments</key>",
            "<array>",
            "<string>/bin/runner</string>",
            "<string>daemon</string>",
            "<string>--foreground</string>",
            "</array>",
            "<key>RunAtLoad</key>",
            "<true/>",
            "<key>KeepAlive</key>",
            "<true/>",
            "<key>StandardOutPath</key>",
            "<string>/o</string>",
            "<key>StandardErrorPath</key>",
            "<string>/e</string>",
            "</dict>",
            "</plist>",
            ""
        ]
    );
    assert_eq!(
        show_calls(&i.calls),
        vec!["launchctl bootstrap gui/501 FILE", "launchctl enable gui/501/com.alwaysrunning.runner"]
    );
    let u = cmd_uninstall(Os::Macos, 501).unwrap();
    assert_eq!(u.path, i.path);
    assert_eq!(
        show_calls(&u.calls),
        vec!["launchctl bootout gui/501 FILE", "launchctl disable gui/501/com.alwaysrunning.runner"]
    );
}

#[test]
fn other_systems_have_no_autostart() {
    assert!(cmd_install(Os::Other, "x", "o", "e", 0).is_none());
    assert!(cmd_uninstall(Os::Other, 0).is_none());
    assert_eq!(unsupported(), "Autostart not supported on this OS yet.");
}
