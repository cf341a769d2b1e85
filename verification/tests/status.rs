//! The status and the live screen.
use alwaysrunning::model::{AppConfig, AppRuntime, InstanceRuntime, Runtime};
use alwaysrunning::status::{
    build_status_snapshot, cmd_status, status_mode, status_pids, totals_fit, StatusMode, StatusSnapshot,
};
use alwaysrunning::watch::{
    render_status_screen_with_selection, selected_log, Key, KeyCode, WatchAction, WatchState,
};

fn app(name: &str, instances: usize) -> AppConfig {
    AppConfig {
        name: name.to_string(),
        cmd: "./bin".to_string(),
        args: vec!["-v".to_string(), "x".to_string()],
        instances,
        created_at: 1,
        env_file: None,
        clean_env: false,
        paused: false,
    }
}

fn world() -> (Vec<AppConfig>, Runtime) {
    let mut web = AppRuntime::default();
    web.insert(
        0,
        InstanceRuntime { pid: 10, started_at: 900, restarts: 2, ..InstanceRuntime::default() },
    );
    web.insert(
        1,
        InstanceRuntime {
            pid: 11,
            started_at: 950,
            restarts: 3,
            last_exit_at: Some(940),
            last_exit_code: Some(-1),
            last_exit_signal: None,
        },
    );
    web.insert(7, InstanceRuntime { pid: 17, restarts: 100, ..InstanceRuntime::default() });
    let mut runtime = Runtime::default();
    runtime.insert("web".to_string(), web);
    let mut job = app("job", 1);
    job.paused = true;
    job.args = Vec::new();
    (vec![app("web", 3), job], runtime)
}

fn snapshot(live: &[i32], now: u64) -> StatusSnapshot {
    let (apps, runtime) = world();
    assert!(totals_fit(&apps, &runtime));
    build_status_snapshot(&apps, &runtime, &live.to_vec(), now)
}

#[test]
fn a_snapshot_counts_what_runs() {
    let (apps, runtime) = world();
    assert_eq!(status_pids(&apps, &runtime), vec![10, 11]);
    let s = snapshot(&[10], 1000);
    assert_eq!(s.generated_at, 1000);
    assert_eq!(s.apps.len(), 2);
    let web = &s.apps[0];
    assert_eq!((web.name.as_str(), web.cmd.as_str(), web.instances_desired), ("web", "./bin", 3));
    assert_eq!((web.running, web.total_restarts, web.paused), (1, 5, false));
    assert_eq!(web.args, vec!["-v", "x"]);
    let up = web.instances[0];
    assert_eq!((up.index, up.pid, up.alive, up.started_at, up.uptime_secs), (0, Some(10), true, Some(900), Some(100)));
    let down = web.instances[1];
    assert_eq!((down.pid, down.alive, down.started_at, down.uptime_secs), (Some(11), false, Some(950), None));
    assert_eq!((down.last_exit_at, down.last_exit_code, down.last_exit_signal), (Some(940), Some(-1), None));
    let never = web.instances[2];
    assert_eq!((never.index, never.pid, never.alive, never.started_at, never.restarts), (2, None, false, None, 0));
    assert!(s.apps[1].paused);
    assert_eq!(s.apps[1].running, 0);
}

#[test]
fn other_processes_do_not_matter() {
    assert_eq!(cmd_status(&snapshot(&[10], 1000)), cmd_status(&snapshot(&[17, 10, 99], 1000)));
}

#[test]
fn a_start_that_lies_ahead_has_no_uptime() {
    let s = snapshot(&[10, 11], 899);
    assert_eq!(s.apps[0].running, 2);
    assert_eq!(s.apps[0].instances[0].uptime_secs, None);
    assert_eq!(s.apps[0].instances[0].started_at, Some(900));
}

#[test]
fn the_status_is_written_line_by_line() {
    assert_eq!(
        cmd_status(&snapshot(&[10], 1000)),
        "web: 1/3 running  restarts=5  cmd: ./bin -v x\n\
         \x20 [0] pid=10     up   uptime=100s   restarts=2   last_exit_at=- code=- sig=-\n\
         \x20 [1] pid=11     down uptime=-      restarts=3   last_exit_at=940 code=-1 sig=-\n\
         \x20 [2] pid=0      down uptime=-      restarts=0   last_exit_at=- code=- sig=-\n\
         job: 0/1 running  restarts=0  paused cmd: ./bin \n\
         \x20 [0] pid=0      down uptime=-      restarts=0   last_exit_at=- code=- sig=-\n"
    );
    let empty = build_status_snapshot(&Vec::new(), &Runtime::default(), &Vec::new(), 5);
    assert_eq!(cmd_status(&empty), "No apps registered.\n");
}

#[test]
fn a_live_screen_needs_a_terminal() {
    assert_eq!(status_mode(true, false, true), StatusMode::Live);
    assert_eq!(status_mode(true, true, true), StatusMode::Live);
    assert_eq!(status_mode(true, false, false), StatusMode::Text);
    assert_eq!(status_mode(true, true, false), StatusMode::Text);
    assert_eq!(status_mode(false, true, true), StatusMode::Json);
    assert_eq!(status_mode(false, true, false), StatusMode::Json);
    assert_eq!(status_mode(false, false, true), StatusMode::Text);
    assert_eq!(status_mode(false, false, false), StatusMode::Text);
}

#[test]
fn restarts_that_do_not_fit_are_noticed() {
    let mut rt = AppRuntime::default();
    rt.insert(0, InstanceRuntime { restarts: u64::MAX, ..InstanceRuntime::default() });
    rt.insert(1, InstanceRuntime { restarts: 1, ..InstanceRuntime::default() });
    let mut runtime = Runtime::default();
    runtime.insert("a".to_string(), rt);
    assert!(totals_fit(&vec![app("a", 1)], &runtime));
    assert!(!totals_fit(&vec![app("a", 2)], &runtime));
    assert!(totals_fit(&vec![app("b", 2)], &runtime));
}

const TOP: &str =
    "\x1b[2J\x1b[Hrunner status  (q/ctrl+c exit, r restart, s stop, l logs, j/k app, [ ] inst)  t=1000\n";

fn watch(app: usize, inst: usize, logs: bool) -> WatchState {
    WatchState { selected_app: app, selected_inst: inst, show_logs: logs }
}

#[test]
fn the_screen_marks_the_selection() {
    let s = snapshot(&[10], 1000);
    let nothing = Err(String::new());
    assert_eq!(
        render_status_screen_with_selection(&s, &watch(0, 1, false), 1000, &nothing),
        format!(
            "{}> web: 1/3 running  restarts=5  cmd: ./bin -v x\n\
             \x20  [0] pid=10     up   uptime=100s   restarts=2  \n\
             \x20 *[1] pid=11     down uptime=-      restarts=3  \n\
             \x20  [2] pid=0      down uptime=-      restarts=0  \n\
             \x20 job: 0/1 running  restarts=0  paused cmd: ./bin \n\
             \x20  [0] pid=0      down uptime=-      restarts=0  \n",
            TOP
        )
    );
    let empty = build_status_snapshot(&Vec::new(), &Runtime::default(), &Vec::new(), 5);
    assert_eq!(
        render_status_screen_with_selection(&empty, &watch(0, 0, true), 1000, &nothing),
        format!("{}No apps registered.\n", TOP)
    );
}

#[test]
fn the_screen_shows_the_selected_log() {
    let s = snapshot(&[10], 1000);
    assert_eq!(selected_log(&watch(0, 1, true), &s), Some(("web".to_string(), 1)));
    assert_eq!(selected_log(&watch(0, 1, false), &s), None);
    assert_eq!(selected_log(&watch(1, 1, true), &s), None);
    assert_eq!(selected_log(&watch(9, 0, true), &s), None);
    let plain = render_status_screen_with_selection(&s, &watch(1, 0, false), 1000, &Err(String::new()));
    let lines = Ok(vec!["one".to_string(), "two".to_string()]);
    assert_eq!(
        render_status_screen_with_selection(&s, &watch(1, 0, true), 1000, &lines),
        format!("{}\n--- logs: job[0] (tail 20) ---\none\ntwo\n", plain)
    );
    assert_eq!(
        render_status_screen_with_selection(&s, &watch(1, 0, true), 1000, &Err("gone".to_string())),
        format!("{}\n--- logs: job[0] (tail 20) ---\n(unable to read log: gone)\n", plain)
    );
}

fn press(code: KeyCode) -> Key {
    Key { code, control: false, pressed: true }
}

fn after(w: WatchState, code: KeyCode) -> WatchState {
    let mut w = w;
    assert_eq!(w.on_key(press(code), &snapshot(&[], 1), false), WatchAction::Continue);
    w
}

#[test]
fn keys_move_the_selection() {
    assert_eq!(WatchState::new(), watch(0, 0, false));
    assert_eq!(after(watch(0, 2, false), KeyCode::Char('j')), watch(1, 0, false));
    assert_eq!(after(watch(0, 2, false), KeyCode::Down), watch(1, 0, false));
    assert_eq!(after(watch(1, 0, false), KeyCode::Down), watch(1, 0, false));
    assert_eq!(after(watch(1, 0, false), KeyCode::Up), watch(0, 0, false));
    assert_eq!(after(watch(1, 0, false), KeyCode::Char('k')), watch(0, 0, false));
    assert_eq!(after(watch(0, 1, false), KeyCode::Up), watch(0, 1, false));
    assert_eq!(after(watch(0, 1, false), KeyCode::Right), watch(0, 2, false));
    assert_eq!(after(watch(0, 2, false), KeyCode::Char(']')), watch(0, 2, false));
    assert_eq!(after(watch(0, 2, false), KeyCode::Left), watch(0, 1, false));
    assert_eq!(after(watch(0, 0, false), KeyCode::Char('[')), watch(0, 0, false));
    assert_eq!(after(watch(0, 0, false), KeyCode::Char('l')), watch(0, 0, true));
    assert_eq!(after(watch(0, 0, true), KeyCode::Char('l')), watch(0, 0, false));
    assert_eq!(after(watch(0, 1, true), KeyCode::Char('x')), watch(0, 1, true));
    assert_eq!(after(watch(0, 1, true), KeyCode::Char('c')), watch(0, 1, true));
    assert_eq!(after(watch(0, 1, true), KeyCode::Other), watch(0, 1, true));
    assert_eq!(after(watch(9, 0, false), KeyCode::Right), watch(9, 0, false));
}

#[test]
fn keys_ask_for_actions() {
    let s = snapshot(&[], 1);
    let mut w = WatchState::new();
    assert_eq!(w.on_key(press(KeyCode::Char('q')), &s, false), WatchAction::Quit);
    let ctrl_c = Key { code: KeyCode::Char('c'), control: true, pressed: true };
    assert_eq!(w.on_key(ctrl_c, &s, false), WatchAction::Quit);
    let release = Key { code: KeyCode::Char('q'), control: false, pressed: false };
    assert_eq!(w.on_key(release, &s, false), WatchAction::Continue);
    assert_eq!(w.on_key(press(KeyCode::Char('r')), &s, false), WatchAction::Restart { all: true });
    assert_eq!(w.on_key(press(KeyCode::Char('r')), &s, true), WatchAction::Restart { all: false });
    assert_eq!(w.on_key(press(KeyCode::Char('s')), &s, false), WatchAction::Stop { all: true });
    assert_eq!(w.on_key(press(KeyCode::Char('s')), &s, true), WatchAction::Stop { all: false });
    assert_eq!(w, WatchState::new());
}

#[test]
fn the_selection_keeps_to_the_apps() {
    let mut w = watch(9, 4, true);
    w.clamp(&snapshot(&[], 1));
    assert_eq!(w, watch(1, 4, true));
    let empty = build_status_snapshot(&Vec::new(), &Runtime::default(), &Vec::new(), 5);
    w.clamp(&empty);
    assert_eq!(w, watch(1, 4, true));
}
