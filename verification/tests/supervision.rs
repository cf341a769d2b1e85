//! The daemon and its passes.
use alwaysrunning::daemon::{
    cmd_daemon, ensure_daemon_running, read_pid_file, write_pid_file, AlreadyRunning, DaemonStep,
};
use alwaysrunning::model::{AppConfig, AppRuntime, AppRuntimeV0, InstanceRuntime, Runtime, RuntimeV0};
use alwaysrunning::store::{read_runtime, read_state, write_runtime, write_state};
use alwaysrunning::supervise::{
    check_app, collect_pids, prune_apps, record_launches, restarts_fit, spawn_failure, spawn_instance, to_launch,
    to_probe, Launched, Observation, Pass,
};
use alwaysrunning::unix::ExitInfo;

fn app(name: &str, instances: usize) -> AppConfig {
    AppConfig {
        name: name.to_string(),
        cmd: "./bin".to_string(),
        args: vec!["-v".to_string()],
        instances,
        created_at: 1,
        env_file: None,
        clean_env: false,
        paused: false,
    }
}

fn running(pid: i32) -> InstanceRuntime {
    InstanceRuntime { pid, started_at: 100, ..InstanceRuntime::default() }
}

fn instances(list: &[(usize, i32)]) -> AppRuntime {
    let mut rt = AppRuntime::default();
    for (idx, pid) in list {
        rt.insert(*idx, running(*pid));
    }
    rt
}

fn indices(rt: &AppRuntime) -> Vec<(usize, i32)> {
    rt.instances.iter().map(|(i, inst)| (*i, inst.pid)).collect()
}

fn up(at: u64) -> Observation {
    Observation { exit: None, alive: true, at }
}

#[test]
fn a_pid_file_gives_back_its_process() {
    let content = write_pid_file(4711, None, false).unwrap();
    assert_eq!(content, "4711");
    assert_eq!(read_pid_file(Some(&content)), Some(4711));
    assert_eq!(read_pid_file(Some(" 12\n")), Some(12));
    assert_eq!(read_pid_file(Some("-3")), Some(-3));
    assert_eq!(read_pid_file(Some("0")), None);
    assert_eq!(read_pid_file(Some("x")), None);
    assert_eq!(read_pid_file(Some("")), None);
    assert_eq!(read_pid_file(None), None);
}

#[test]
fn a_second_daemon_is_refused() {
    let err = write_pid_file(5, Some(4), true).unwrap_err();
    assert_eq!(err, AlreadyRunning { pid: 4 });
    assert_eq!(err.message(), "runner already running with pid 4");
    assert_eq!(write_pid_file(5, Some(4), false).unwrap(), "5");
    assert_eq!(write_pid_file(5, Some(5), true).unwrap(), "5");
}

#[test]
fn the_daemon_is_started_unless_it_runs() {
    assert_eq!(ensure_daemon_running(Some(4), true), None);
    assert_eq!(ensure_daemon_running(Some(4), false), Some(vec!["daemon".to_string()]));
    assert_eq!(ensure_daemon_running(None, false), Some(vec!["daemon".to_string()]));
    assert_eq!(
        cmd_daemon(false, true),
        vec![
            DaemonStep::EnsureDirs,
            DaemonStep::Daemonize,
            DaemonStep::WritePidFile,
            DaemonStep::Loop { watch: true }
        ]
    );
    assert_eq!(
        cmd_daemon(true, false),
        vec![DaemonStep::EnsureDirs, DaemonStep::WritePidFile, DaemonStep::Loop { watch: false }]
    );
}

#[test]
fn apps_that_are_gone_are_ended() {
    let mut runtime = Runtime::default();
    runtime.insert("b".to_string(), instances(&[(0, 20), (1, 0), (2, 22)]));
    runtime.insert("a".to_string(), instances(&[(0, 10)]));
    runtime.insert("c".to_string(), instances(&[(0, 30)]));
    let pids = prune_apps(&vec![app("c", 1), app("a", 1), app("new", 1)], &mut runtime);
    assert_eq!(pids, vec![20, 22]);
    let names: Vec<&str> = runtime.apps.iter().map(|(n, _)| n.as_str()).collect();
    assert_eq!(names, vec!["a", "c"]);
    assert_eq!(collect_pids(runtime.get("c").unwrap()), vec![30]);
}

#[test]
fn instances_that_are_too_many_are_ended() {
    let mut rt = instances(&[(0, 10), (1, 11), (2, 12), (3, 0), (4, 14)]);
    let a = app("a", 2);
    assert_eq!(to_probe(&rt, &a), vec![(0, 10), (1, 11)]);
    let pids = check_app(&mut rt, &a, &vec![up(5), up(5)]);
    assert_eq!(pids, vec![12, 14]);
    assert_eq!(indices(&rt), vec![(0, 10), (1, 11)]);
}

#[test]
fn a_process_that_ended_is_recorded() {
    let mut rt = instances(&[(0, 10), (1, 0), (2, 12), (3, 13)]);
    let a = app("a", 4);
    assert_eq!(to_probe(&rt, &a), vec![(0, 10), (2, 12), (3, 13)]);
    let exit = Some(ExitInfo { code: Some(3), signal: None });
    let seen = vec![
        Observation { exit, alive: false, at: 7 },
        Observation { exit: None, alive: false, at: 8 },
        up(9),
    ];
    assert_eq!(check_app(&mut rt, &a, &seen), Vec::<i32>::new());
    assert_eq!(indices(&rt), vec![(0, 0), (1, 0), (2, 0), (3, 13)]);
    let first = rt.get(0).unwrap();
    assert_eq!((first.last_exit_at, first.last_exit_code, first.last_exit_signal), (Some(7), Some(3), None));
    assert_eq!(first.started_at, 100);
    let third = rt.get(2).unwrap();
    assert_eq!((third.last_exit_at, third.last_exit_code, third.last_exit_signal), (Some(8), None, None));
    assert_eq!(rt.get(3).unwrap().last_exit_at, None);
}

#[test]
fn a_pass_keeps_an_app_alive() {
    let mut rt = instances(&[(1, 11)]);
    let a = app("a", 3);
    let targets = to_launch(&mut rt, &a);
    assert_eq!(targets, vec![0, 2]);
    assert_eq!(indices(&rt), vec![(0, 0), (1, 11), (2, 0)]);
    let results = vec![Some(Launched { pid: 40, at: 50 }), None];
    assert!(restarts_fit(&rt, &targets, &results));
    record_launches(&mut rt, &targets, &results);
    assert_eq!(indices(&rt), vec![(0, 40), (1, 11), (2, 0)]);
    assert_eq!(rt.get(0).unwrap().started_at, 50);
    assert_eq!(rt.get(0).unwrap().restarts, 0);
    // the one that could not be started is tried again
    assert_eq!(to_launch(&mut rt, &a), vec![2]);
}

#[test]
fn a_crash_counts_one_restart() {
    let mut rt = instances(&[(0, 10)]);
    let a = app("a", 1);
    let exit = Some(ExitInfo { code: None, signal: Some(11) });
    check_app(&mut rt, &a, &vec![Observation { exit, alive: false, at: 200 }]);
    let targets = to_launch(&mut rt, &a);
    assert_eq!(targets, vec![0]);
    record_launches(&mut rt, &targets, &vec![Some(Launched { pid: 77, at: 201 })]);
    let inst = rt.get(0).unwrap();
    assert_eq!((inst.pid, inst.started_at, inst.restarts), (77, 201, 1));
    assert_eq!((inst.last_exit_at, inst.last_exit_signal), (Some(200), Some(11)));
}

#[test]
fn a_paused_app_is_left_down() {
    let mut rt = instances(&[(0, 0)]);
    let mut a = app("a", 3);
    a.paused = true;
    assert_eq!(to_launch(&mut rt, &a), Vec::<usize>::new());
    assert_eq!(indices(&rt), vec![(0, 0)]);
}

#[test]
fn the_restarts_can_run_out() {
    let mut rt = AppRuntime::default();
    rt.insert(0, InstanceRuntime { restarts: u64::MAX, started_at: 1, ..InstanceRuntime::default() });
    assert!(!restarts_fit(&rt, &vec![0], &vec![Some(Launched { pid: 1, at: 1 })]));
    assert!(restarts_fit(&rt, &vec![0], &vec![None]));
}

#[test]
fn a_launch_is_planned() {
    let mut a = app("web", 1);
    a.clean_env = true;
    let file = vec![
        ("X".to_string(), "1".to_string()),
        ("RUNNER_APP".to_string(), "fake".to_string()),
    ];
    let plan = spawn_instance(&a, 12, file, "/logs/x.log");
    assert_eq!(plan.cmd, "./bin");
    assert_eq!(plan.args, vec!["-v"]);
    assert!(plan.clear_env);
    let env: Vec<(&str, &str)> = plan.env.iter().map(|(k, v)| (k.as_str(), v.as_str())).collect();
    assert_eq!(
        env,
        vec![
            ("X", "1"),
            ("RUNNER_APP", "fake"),
            ("RUNNER_APP", "web"),
            ("RUNNER_INSTANCE", "12"),
            ("RUNNER_LOG", "/logs/x.log")
        ]
    );
    assert_eq!(spawn_failure(&a, 3, "no such file"), "spawn failed for web[3]: no such file");
}

#[test]
fn the_first_format_is_taken_over() {
    let old = RuntimeV0 {
        apps: vec![("a".to_string(), AppRuntimeV0 { instances: vec![(0, 5), (3, 0)] })],
    };
    let runtime = read_runtime(None, Some(old));
    assert_eq!(indices(runtime.get("a").unwrap()), vec![(0, 5), (3, 0)]);
    assert_eq!(runtime.get("a").unwrap().get(0).unwrap().started_at, 0);
    let mut current = Runtime::default();
    current.insert("b".to_string(), instances(&[(0, 9)]));
    let runtime = read_runtime(Some(current), None);
    assert_eq!(collect_pids(runtime.get("b").unwrap()), vec![9]);
    assert!(read_runtime(None, None).apps.is_empty());
    assert!(read_state(None).apps.is_empty());
}

#[test]
fn files_are_written_beside_their_place() {
    let w = write_state();
    assert_eq!(w.target, vec![".alwaysrunning", "state.json"]);
    assert_eq!(w.temp, vec![".alwaysrunning", "state.tmp"]);
    let w = write_runtime();
    assert_eq!(w.target, vec![".alwaysrunning", "runtime.json"]);
    assert_eq!(w.temp, vec![".alwaysrunning", "runtime.tmp"]);
}

#[test]
fn the_runtime_is_ordered_by_name() {
    let mut runtime = Runtime::default();
    for name in ["m", "z", "a", "m"] {
        runtime.insert(name.to_string(), AppRuntime::default());
    }
    let names: Vec<&str> = runtime.apps.iter().map(|(n, _)| n.as_str()).collect();
    assert_eq!(names, vec!["a", "m", "z"]);
    assert!(runtime.remove("m").is_some());
    assert!(runtime.remove("m").is_none());
    assert!(runtime.get("m").is_none());
    let mut rt = AppRuntime::default();
    rt.insert(5, running(1));
    rt.insert(2, running(2));
    rt.insert(5, running(3));
    assert_eq!(indices(&rt), vec![(2, 2), (5, 3)]);
    assert_eq!(rt.get(3), None);
}

#[test]
fn a_pass_goes_over_every_app() {
    let mut runtime = Runtime::default();
    runtime.insert("gone".to_string(), instances(&[(0, 90)]));
    runtime.insert("a".to_string(), instances(&[(0, 10), (1, 11), (2, 12)]));
    let (mut pass, gone) = Pass::begin(vec![app("a", 2), app("b", 1)], runtime);
    assert_eq!(gone, vec![90]);
    assert_eq!(pass.probe(), Some(vec![(0, 10), (1, 11)]));
    let dead = Observation { exit: None, alive: false, at: 4 };
    let (excess, targets) = pass.settle(&vec![up(4), dead]);
    assert_eq!(excess, vec![12]);
    assert_eq!(targets, vec![1]);
    let results = vec![Some(Launched { pid: 21, at: 5 })];
    assert!(pass.restarts_fit(&targets, &results));
    pass.record(&targets, &results);
    assert_eq!(pass.probe(), Some(vec![]));
    let (excess, targets) = pass.settle(&Vec::new());
    assert_eq!(excess, Vec::<i32>::new());
    assert_eq!(targets, vec![0]);
    pass.record(&targets, &vec![None]);
    assert_eq!(pass.probe(), None);
    let names: Vec<&str> = pass.runtime.apps.iter().map(|(n, _)| n.as_str()).collect();
    assert_eq!(names, vec!["a", "b"]);
    assert_eq!(indices(pass.runtime.get("a").unwrap()), vec![(0, 10), (1, 21)]);
    assert_eq!(indices(pass.runtime.get("b").unwrap()), vec![(0, 0)]);
}
