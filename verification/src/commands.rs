//! What each command does: the effects that the program is to perform, in order.
use vstd::prelude::*;
use vstd::string::*;

use crate::model;
use crate::model::{AppConfig, AppRuntime, AppView, InstanceRuntime, Runtime, RuntimeView, State};
use crate::registry;
use crate::registry::{
    drop_named, find_named, register, register_all, select, set_paused, start_at,
};
use crate::supervise;
use crate::supervise::collect_pids;
use crate::text;
use crate::text::{copy_texts, write_decimal};

verus! {

/// Something that the program does to the world.
#[derive(Debug)]
pub enum Effect {
    /// Print a line.
    Print(String),
    /// Write the file of registered apps.
    WriteState(State),
    /// Write the file of processes.
    WriteRuntime(Runtime),
    /// Write apps to a file of the user.
    Export { file: String, state: State },
    /// Send a process a signal, wait for its end, and kill it where it does not end.
    EndGracefully { pid: i32, signal: i32 },
    /// Ask a process to end.
    End { pid: i32 },
    /// Install the autostart; it is no error where that fails.
    Install,
    /// Start the daemon unless it runs.
    EnsureDaemon,
    /// Attach to the daemon where it runs, and be the daemon where it does not.
    Foreground,
}

/// What an `Effect` says.
pub enum EffectView {
    Print(Seq<char>),
    WriteState(Seq<AppView>),
    WriteRuntime(Map<Seq<char>, Seq<(usize, InstanceRuntime)>>),
    Export { file: Seq<char>, state: Seq<AppView> },
    EndGracefully { pid: i32, signal: i32 },
    End { pid: i32 },
    Install,
    EnsureDaemon,
    Foreground,
}

impl View for Effect {
    type V = EffectView;

    open spec fn view(&self) -> EffectView {
        match *self {
            Effect::Print(s) => EffectView::Print(s@),
            Effect::WriteState(s) => EffectView::WriteState(s@),
            Effect::WriteRuntime(r) => EffectView::WriteRuntime(r.map()),
            Effect::Export { file, state } => EffectView::Export { file: file@, state: state@ },
            Effect::EndGracefully { pid, signal } => EffectView::EndGracefully { pid, signal },
            Effect::End { pid } => EffectView::End { pid },
            Effect::Install => EffectView::Install,
            Effect::EnsureDaemon => EffectView::EnsureDaemon,
            Effect::Foreground => EffectView::Foreground,
        }
    }
}

/// What a list of effects says.
pub open spec fn effect_views(s: Seq<Effect>) -> Seq<EffectView> {
    s.map_values(|e: Effect| e@)
}

/// What is written as processes is in order: names and indices go up.
pub open spec fn runtimes_wf(s: Seq<Effect>) -> bool {
    forall|i: int|
        0 <= i < s.len() && (#[trigger] s[i]) is WriteRuntime ==> s[i]->WriteRuntime_0.wf()
}

/// Adds an effect.
fn then_do(out: &mut Vec<Effect>, effect: Effect)
    ensures
        effect_views(final(out)@) == effect_views(old(out)@).push(effect@),
        runtimes_wf(old(out)@) && (effect is WriteRuntime ==> effect->WriteRuntime_0.wf()) ==> runtimes_wf(
            final(out)@,
        ),
{
    let ghost before = out@;
    let ghost view = effect@;
    out.push(effect);
    assert(effect_views(out@) =~= effect_views(before).push(view));
    assert forall|i: int|
        runtimes_wf(before) && (effect is WriteRuntime ==> effect->WriteRuntime_0.wf()) && 0 <= i < out@.len()
            && (#[trigger] out@[i]) is WriteRuntime implies out@[i]->WriteRuntime_0.wf() by {
        if i < before.len() {
            assert(out@[i] == before[i]);
        }
    }
}

/// Why a command is refused.
#[derive(Debug)]
pub enum CommandError {
    /// An app cannot have zero instances.
    NoInstances,
    /// No app of this name is registered.
    NotRegistered { name: String },
    /// Neither a name was given nor all apps were meant.
    NoTarget,
}

impl CommandError {
    /// What is said to the user.
    pub open spec fn text(self) -> Seq<char> {
        match self {
            CommandError::NoInstances => "--instances must be >= 1"@,
            CommandError::NotRegistered { name } => "No app named '"@ + name@
                + "' registered. Use `runner run` first."@,
            CommandError::NoTarget => "Provide an app name or use --all."@,
        }
    }

    /// What is said to the user.
    pub fn message(&self) -> (r: String)
        ensures
            r@ == self.text(),
    {
        match self {
            CommandError::NoInstances => "--instances must be >= 1".to_owned(),
            CommandError::NotRegistered { name } => "No app named '".to_owned().concat(
                name.as_str(),
            ).concat("' registered. Use `runner run` first."),
            CommandError::NoTarget => "Provide an app name or use --all.".to_owned(),
        }
    }
}

/// What is said of an app that was registered.
pub open spec fn registered_text(name: Seq<char>, cmd: Seq<char>, instances: nat) -> Seq<char> {
    "OK: '"@ + name + "' -> "@ + cmd + " ("@ + text::decimal(instances) + " instance"@ + (if instances
        == 1 {
        ""@
    } else {
        "s"@
    }) + ")"@
}

/// The effects of registering an app.
pub open spec fn run_effects(
    apps: Seq<AppView>,
    app: AppView,
    foreground: bool,
    no_autostart: bool,
) -> Seq<EffectView> {
    let written = seq![EffectView::WriteState(registry::with_app(apps, app))];
    let installed = if no_autostart {
        written
    } else {
        written.push(EffectView::Install)
    };
    if foreground {
        installed.push(EffectView::Foreground)
    } else {
        installed.push(EffectView::EnsureDaemon).push(
            EffectView::Print(registered_text(app.name, app.cmd, app.instances)),
        )
    }
}

/// Registers an app and sees that it runs. `env_file` is an absolute path, and `now` is in
/// Unix seconds.
pub fn cmd_run(
    name: &str,
    cmd: &str,
    args: &Vec<String>,
    instances: usize,
    env_file: Option<String>,
    clean_env: bool,
    foreground: bool,
    no_autostart: bool,
    state: State,
    now: u64,
) -> (r: Result<Vec<Effect>, CommandError>)
    ensures
        match r {
            Ok(effects) => instances >= 1 && effect_views(effects@) == run_effects(
                state@,
                (AppView {
                    name: name@,
                    cmd: cmd@,
                    args: text::texts(args@),
                    instances: instances as nat,
                    created_at: now as nat,
                    env_file: model::opt_text(env_file),
                    clean_env,
                    paused: false,
                }),
                foreground,
                no_autostart,
            ),
            Err(e) => instances == 0 && e == CommandError::NoInstances,
        },
{
    if instances == 0 {
        return Err(CommandError::NoInstances);
    }
    let app = AppConfig {
        name: name.to_owned(),
        cmd: cmd.to_owned(),
        args: copy_texts(args),
        instances,
        created_at: now,
        env_file,
        clean_env,
        paused: false,
    };
    let apps = register(state.apps, app);
    let mut out: Vec<Effect> = Vec::new();
    then_do(&mut out, Effect::WriteState(State { apps }));
    if !no_autostart {
        then_do(&mut out, Effect::Install);
    }
    if foreground {
        then_do(&mut out, Effect::Foreground);
    } else {
        then_do(&mut out, Effect::EnsureDaemon);
        let plural = if instances == 1 {
            ""
        } else {
            "s"
        };
        let line = "OK: '".to_owned().concat(name).concat("' -> ").concat(cmd).concat(" (").concat(
            write_decimal(instances as u64).as_str(),
        ).concat(" instance").concat(plural).concat(")");
        then_do(&mut out, Effect::Print(line));
    }
    Ok(out)
}

/// How to go on in the foreground.
#[derive(Debug, Clone, Copy, PartialEq, Eq, Structural)]
pub enum Foreground {
    /// Show the screen of the daemon that runs.
    Attach,
    /// Be the daemon, with a screen.
    Daemon,
}

impl Foreground {
    /// What is said to the user first.
    pub fn message(&self) -> (r: String)
        ensures
            r@ == (match *self {
                Foreground::Attach =>
                    "Runner already running in background. Attaching status screen..."@,
                Foreground::Daemon => "Running in foreground. Press Ctrl+C to exit."@,
            }),
    {
        match self {
            Foreground::Attach =>
                "Runner already running in background. Attaching status screen...".to_owned(),
            Foreground::Daemon => "Running in foreground. Press Ctrl+C to exit.".to_owned(),
        }
    }
}

/// Decides how to go on in the foreground, by the process in the pid file.
pub fn run_in_foreground(pid: Option<i32>, alive: bool) -> (r: Foreground)
    ensures
        r == (if pid is Some && alive {
            Foreground::Attach
        } else {
            Foreground::Daemon
        }),
{
    if pid.is_some() && alive {
        Foreground::Attach
    } else {
        Foreground::Daemon
    }
}

/// The path under which an env file is remembered: as it was given where that is absolute, and
/// joined to the current directory otherwise.
pub fn env_path(given: String, absolute: bool, joined: String) -> (r: String)
    ensures
        r@ == (if absolute {
            given@
        } else {
            joined@
        }),
{
    if absolute {
        given
    } else {
        joined
    }
}

/// Resumes an app, with another number of instances where one is given.
pub fn cmd_start(name: &str, instances: Option<usize>, state: State) -> (r: Result<
    Vec<Effect>,
    CommandError,
>)
    ensures
        match r {
            Ok(effects) => {
                &&& model::has_name(state@, name@)
                &&& instances != Some(0usize)
                &&& effect_views(effects@) == seq![
                    EffectView::WriteState(registry::started(state@, name@, instances)),
                    EffectView::EnsureDaemon,
                    EffectView::Print("Started "@ + name@),
                ]
            },
            Err(CommandError::NoInstances) => model::has_name(state@, name@) && instances == Some(0usize),
            Err(CommandError::NotRegistered { name: n }) => !model::has_name(state@, name@) && n@ == name@,
            Err(CommandError::NoTarget) => false,
        },
{
    let at: usize = find_named(&state.apps, name);
    proof {
        let all = registry::names(state@);
        text::first_index_properties(all, name@);
        if at < all.len() {
            assert(all[at as int] == state@[at as int].name);
        }
        if model::has_name(state@, name@) {
            let k = choose|k: int| 0 <= k < state@.len() && #[trigger] state@[k].name == name@;
            assert(all[k] == name@);
        }
    }
    if at == state.apps.len() {
        return Err(CommandError::NotRegistered { name: name.to_owned() });
    }
    if let Some(n) = instances {
        if n == 0 {
            return Err(CommandError::NoInstances);
        }
    }
    let ghost old_state = state@;
    let apps = start_at(state.apps, at, instances);
    let mut out: Vec<Effect> = Vec::new();
    then_do(&mut out, Effect::WriteState(State { apps }));
    then_do(&mut out, Effect::EnsureDaemon);
    then_do(&mut out, Effect::Print("Started ".to_owned().concat(name)));
    assert(effect_views(out@) =~= seq![
        EffectView::WriteState(registry::started(old_state, name@, instances)),
        EffectView::EnsureDaemon,
        EffectView::Print("Started "@ + name@),
    ]);
    Ok(out)
}

/// How processes are ended: gracefully with a signal, or by asking them.
pub open spec fn end_effect(pid: i32, signal: Option<i32>) -> EffectView {
    match signal {
        Some(signal) => EffectView::EndGracefully { pid, signal },
        None => EffectView::End { pid },
    }
}

/// Ending processes, in order.
pub open spec fn ends(pids: Seq<i32>, signal: Option<i32>) -> Seq<EffectView> {
    pids.map_values(|pid: i32| end_effect(pid, signal))
}

/// Ends the processes of an app.
fn end_app(out: &mut Vec<Effect>, rt: &AppRuntime, signal: Option<i32>)
    ensures
        effect_views(final(out)@) == effect_views(old(out)@) + ends(supervise::live_pids(rt@), signal),
        runtimes_wf(old(out)@) ==> runtimes_wf(final(out)@),
{
    let ghost start = out@;
    let pids = collect_pids(rt);
    let ghost before = effect_views(out@);
    let mut i: usize = 0;
    assert(before + ends(pids@.take(0), signal) =~= before);
    while i < pids.len()
        invariant
            i <= pids@.len(),
            effect_views(out@) == before + ends(pids@.take(i as int), signal),
            runtimes_wf(start) ==> runtimes_wf(out@),
        decreases pids@.len() - i,
    {
        assert(ends(pids@.take(i + 1), signal) =~= ends(pids@.take(i as int), signal).push(
            end_effect(pids@[i as int], signal),
        ));
        match signal {
            Some(signal) => then_do(out, Effect::EndGracefully { pid: pids[i], signal }),
            None => then_do(out, Effect::End { pid: pids[i] }),
        }
        i += 1;
    }
    assert(pids@.take(i as int) =~= pids@);
}

/// Ending the processes of all apps, app by app, with a line about each where one is given:
/// `said` and the name of the app.
pub open spec fn ends_all(s: RuntimeView, signal: Option<i32>, said: Option<Seq<char>>) -> Seq<EffectView>
    decreases s.len(),
{
    if s.len() == 0 {
        Seq::empty()
    } else {
        let ended = ends_all(s.drop_last(), signal, said) + ends(supervise::live_pids(s.last().1), signal);
        match said {
            Some(said) => ended.push(EffectView::Print(said + s.last().0)),
            None => ended,
        }
    }
}

/// Ends the processes of all apps.
fn end_all(out: &mut Vec<Effect>, runtime: &Runtime, signal: Option<i32>, said: Option<&str>)
    ensures
        effect_views(final(out)@) == effect_views(old(out)@) + ends_all(
            runtime@,
            signal,
            text::opt_str(said),
        ),
        runtimes_wf(old(out)@) ==> runtimes_wf(final(out)@),
{
    let ghost start = out@;
    let ghost line = text::opt_str(said);
    let ghost before = effect_views(out@);
    let ghost all = runtime@;
    let mut i: usize = 0;
    assert(all.take(0) =~= Seq::empty());
    assert(before + ends_all(all.take(0), signal, line) =~= before);
    while i < runtime.apps.len()
        invariant
            i <= runtime.apps@.len(),
            all == runtime@,
            line == text::opt_str(said),
            runtimes_wf(start) ==> runtimes_wf(out@),
            effect_views(out@) == before + ends_all(all.take(i as int), signal, line),
        decreases runtime.apps@.len() - i,
    {
        assert(all.take(i + 1).drop_last() =~= all.take(i as int));
        assert(all.take(i + 1).last() == (runtime.apps@[i as int].0@, runtime.apps@[i as int].1@));
        end_app(out, &runtime.apps[i].1, signal);
        if let Some(said) = said {
            then_do(out, Effect::Print(said.to_owned().concat(runtime.apps[i].0.as_str())));
        }
        i += 1;
        assert(effect_views(out@) =~= before + ends_all(all.take(i as int), signal, line));
    }
    assert(all.take(i as int) =~= all);
}

/// Ending the processes of one app, with a line about it.
pub open spec fn ends_named(
    m: Map<Seq<char>, Seq<(usize, InstanceRuntime)>>,
    name: Seq<char>,
    signal: Option<i32>,
    said: Seq<char>,
) -> Seq<EffectView> {
    if m.dom().contains(name) {
        ends(supervise::live_pids(m[name]), signal).push(EffectView::Print(said + name))
    } else {
        seq![EffectView::Print("No runtime for "@ + name)]
    }
}

/// The effects of stopping an app, or all.
pub open spec fn stop_effects(
    apps: Seq<AppView>,
    runtime: Runtime,
    name: Option<Seq<char>>,
    signal: i32,
) -> Seq<EffectView> {
    match name {
        None => ends_all(runtime@, Some(signal), Some("Stopped "@)).push(
            EffectView::WriteState(registry::all_paused(apps, true)),
        ),
        Some(name) => ends_named(runtime.map(), name, Some(signal), "Stopped "@).push(
            EffectView::WriteState(registry::named_paused(apps, name, true)),
        ),
    }
}

/// The apps that a command is about: all of them, or those of a name.
pub open spec fn target(name: Option<&str>, all: bool) -> Option<Seq<char>> {
    if all {
        None
    } else {
        text::opt_str(name)
    }
}

/// Stops an app, or all: the processes end, and the apps stay registered but paused.
pub fn cmd_stop(name: Option<&str>, all: bool, signal: i32, state: State, runtime: &Runtime) -> (r: Result<
    Vec<Effect>,
    CommandError,
>)
    requires
        runtime.wf(),
    ensures
        match r {
            Ok(effects) => (all || name is Some) && effect_views(effects@) == stop_effects(
                state@,
                *runtime,
                target(name, all),
                signal,
            ),
            Err(e) => !all && name is None && e == CommandError::NoTarget,
        },
{
    let mut out: Vec<Effect> = Vec::new();
    let ghost nothing = effect_views(out@);
    assert(nothing =~= Seq::empty());
    if all {
        let apps = set_paused(state.apps, None, true);
        end_all(&mut out, runtime, Some(signal), Some("Stopped "));
        then_do(&mut out, Effect::WriteState(State { apps }));
        assert(effect_views(out@) =~= stop_effects(state@, *runtime, None, signal));
        return Ok(out);
    }
    let name = match name {
        Some(name) => name,
        None => {
            return Err(CommandError::NoTarget);
        },
    };
    let apps = set_paused(state.apps, Some(name), true);
    match runtime.get(name) {
        Some(rt) => {
            end_app(&mut out, rt, Some(signal));
            then_do(&mut out, Effect::Print("Stopped ".to_owned().concat(name)));
        },
        None => {
            then_do(&mut out, Effect::Print("No runtime for ".to_owned().concat(name)));
        },
    }
    assert(effect_views(out@) =~= ends_named(runtime.map(), name@, Some(signal), "Stopped "@));
    then_do(&mut out, Effect::WriteState(State { apps }));
    Ok(out)
}

/// The effects of restarting an app, or all.
pub open spec fn restart_effects(
    apps: Seq<AppView>,
    runtime: Runtime,
    name: Option<Seq<char>>,
    signal: i32,
) -> Seq<EffectView> {
    let ended = match name {
        None => ends_all(runtime@, Some(signal), None).push(
            EffectView::WriteState(registry::all_paused(apps, false)),
        ),
        Some(name) => (if runtime.map().dom().contains(name) {
            ends(supervise::live_pids(runtime.map()[name]), Some(signal))
        } else {
            Seq::empty()
        }).push(EffectView::WriteState(registry::named_paused(apps, name, false))),
    };
    ended.push(EffectView::EnsureDaemon).push(
        EffectView::Print(
            "Restarted "@ + match name {
                None => "all"@,
                Some(name) => name,
            },
        ),
    )
}

/// Restarts an app, or all: the processes end, and the daemon starts them anew.
pub fn cmd_restart(name: Option<&str>, all: bool, signal: i32, state: State, runtime: &Runtime) -> (r:
    Result<Vec<Effect>, CommandError>)
    requires
        runtime.wf(),
    ensures
        match r {
            Ok(effects) => (all || name is Some) && effect_views(effects@) == restart_effects(
                state@,
                *runtime,
                target(name, all),
                signal,
            ),
            Err(e) => !all && name is None && e == CommandError::NoTarget,
        },
{
    let mut out: Vec<Effect> = Vec::new();
    let ghost nothing = effect_views(out@);
    assert(nothing =~= Seq::empty());
    let ghost wanted = restart_effects(state@, *runtime, target(name, all), signal);
    if all {
        let apps = set_paused(state.apps, None, false);
        end_all(&mut out, runtime, Some(signal), None);
        then_do(&mut out, Effect::WriteState(State { apps }));
        then_do(&mut out, Effect::EnsureDaemon);
        then_do(&mut out, Effect::Print("Restarted ".to_owned().concat("all")));
        assert(effect_views(out@) =~= wanted);
        return Ok(out);
    }
    let name = match name {
        Some(name) => name,
        None => {
            return Err(CommandError::NoTarget);
        },
    };
    let apps = set_paused(state.apps, Some(name), false);
    if let Some(rt) = runtime.get(name) {
        end_app(&mut out, rt, Some(signal));
    }
    then_do(&mut out, Effect::WriteState(State { apps }));
    then_do(&mut out, Effect::EnsureDaemon);
    then_do(&mut out, Effect::Print("Restarted ".to_owned().concat(name)));
    assert(effect_views(out@) =~= wanted);
    Ok(out)
}

/// The effects of deleting an app, or all.
pub open spec fn delete_effects(
    apps: Seq<AppView>,
    runtime: Runtime,
    name: Option<Seq<char>>,
) -> Seq<EffectView> {
    match name {
        None => ends_all(runtime@, None, Some("Deleted "@)).push(EffectView::WriteState(Seq::empty())).push(
            EffectView::WriteRuntime(Map::empty()),
        ),
        Some(name) => ends_named(runtime.map(), name, None, "Deleted "@).push(
            EffectView::WriteState(model::without_name(apps, name)),
        ).push(EffectView::WriteRuntime(runtime.map().remove(name))),
    }
}

/// Deletes an app, or all: the processes are asked to end, and nothing is remembered.
pub fn cmd_delete(name: Option<&str>, all: bool, state: State, runtime: Runtime) -> (r: Result<
    Vec<Effect>,
    CommandError,
>)
    requires
        runtime.wf(),
    ensures
        match r {
            Ok(effects) => (all || name is Some) && effect_views(effects@) == delete_effects(
                state@,
                runtime,
                target(name, all),
            ) && runtimes_wf(effects@),
            Err(e) => !all && name is None && e == CommandError::NoTarget,
        },
{
    let mut out: Vec<Effect> = Vec::new();
    let ghost nothing = effect_views(out@);
    assert(nothing =~= Seq::empty());
    let ghost wanted = delete_effects(state@, runtime, target(name, all));
    if all {
        end_all(&mut out, &runtime, None, Some("Deleted "));
        then_do(&mut out, Effect::WriteState(State::default()));
        let empty = Runtime::default();
        assert(empty.map() =~= Map::empty());
        then_do(&mut out, Effect::WriteRuntime(empty));
        assert(effect_views(out@) =~= wanted);
        return Ok(out);
    }
    let name = match name {
        Some(name) => name,
        None => {
            return Err(CommandError::NoTarget);
        },
    };
    let apps = drop_named(state.apps, name);
    let ghost m = runtime.map();
    let mut runtime = runtime;
    match runtime.remove(name) {
        Some(rt) => {
            end_app(&mut out, &rt, None);
            then_do(&mut out, Effect::Print("Deleted ".to_owned().concat(name)));
        },
        None => {
            then_do(&mut out, Effect::Print("No runtime for ".to_owned().concat(name)));
        },
    }
    assert(effect_views(out@) =~= ends_named(m, name@, None, "Deleted "@));
    then_do(&mut out, Effect::WriteState(State { apps }));
    then_do(&mut out, Effect::WriteRuntime(runtime));
    assert(effect_views(out@) =~= wanted);
    Ok(out)
}

/// Writes apps to a file: those of a name, or all.
pub fn cmd_export(file: &str, name: Option<&str>, state: State) -> (r: Vec<Effect>)
    ensures
        effect_views(r@) == seq![
            EffectView::Export {
                file: file@,
                state: registry::selection(state@, text::opt_str(name)),
            },
            EffectView::Print("Exported "@ + file@),
        ],
{
    let apps = select(state.apps, name);
    let mut out: Vec<Effect> = Vec::new();
    then_do(&mut out, Effect::Export { file: file.to_owned(), state: State { apps } });
    then_do(&mut out, Effect::Print("Exported ".to_owned().concat(file)));
    out
}

/// The apps that an import registers: as they are in the file, but resumed where they are to
/// be started.
pub open spec fn taken_in(incoming: Seq<AppView>, start: bool) -> Seq<AppView> {
    if start {
        registry::all_paused(incoming, false)
    } else {
        incoming
    }
}

/// The effects of importing apps.
pub open spec fn import_effects(
    apps: Seq<AppView>,
    incoming: Seq<AppView>,
    file: Seq<char>,
    replace: bool,
    start: bool,
) -> Seq<EffectView> {
    let base = if replace {
        Seq::empty()
    } else {
        apps
    };
    let written = seq![EffectView::WriteState(registry::with_apps(base, taken_in(incoming, start)))];
    (if start {
        written.push(EffectView::EnsureDaemon)
    } else {
        written
    }).push(EffectView::Print("Imported "@ + file))
}

/// Takes in the apps that a file holds: on top of those that are registered, or in their
/// place. Where they are to be started, none of them stays paused.
pub fn cmd_import(file: &str, replace: bool, start: bool, incoming: State, state: State) -> (r: Vec<Effect>)
    ensures
        effect_views(r@) == import_effects(state@, incoming@, file@, replace, start),
{
    let base = if replace {
        State::default()
    } else {
        state
    };
    let more = if start {
        set_paused(incoming.apps, None, false)
    } else {
        incoming.apps
    };
    let apps = register_all(base.apps, more);
    let mut out: Vec<Effect> = Vec::new();
    then_do(&mut out, Effect::WriteState(State { apps }));
    if start {
        then_do(&mut out, Effect::EnsureDaemon);
    }
    then_do(&mut out, Effect::Print("Imported ".to_owned().concat(file)));
    assert(effect_views(out@) =~= import_effects(state@, incoming@, file@, replace, start));
    out
}

/// A stopped app is not started by the daemon; what the others should run is as before.
pub proof fn stopped_app_wants_nothing(apps: Seq<AppView>, name: Seq<char>, i: int)
    requires
        0 <= i < apps.len(),
    ensures
        supervise::wanted(registry::named_paused(apps, name, true)[i]) == (if apps[i].name == name {
            0
        } else {
            supervise::wanted(apps[i])
        }),
        supervise::wanted(registry::all_paused(apps, true)[i]) == 0,
{
}

/// An app that was started, or restarted, should run all of its instances.
pub proof fn resumed_app_wants_its_instances(apps: Seq<AppView>, name: Seq<char>, instances: Option<usize>)
    requires
        model::has_name(apps, name),
    ensures
        ({
            let i = registry::place_of(apps, name);
            &&& supervise::wanted(registry::started(apps, name, instances)[i]) == (match instances {
                Some(n) => n as nat,
                None => apps[i].instances,
            })
            &&& supervise::wanted(registry::named_paused(apps, name, false)[i]) == apps[i].instances
        }),
{
    registry::starting_keeps_names(apps, name, instances);
}

/// An import that starts apps leaves each of them registered, and to be run by the daemon with
/// all of its instances.
pub proof fn imported_apps_are_started(
    apps: Seq<AppView>,
    incoming: Seq<AppView>,
    file: Seq<char>,
    replace: bool,
)
    ensures
        ({
            let done = import_effects(apps, incoming, file, replace, true);
            let written = done[0]->WriteState_0;
            &&& done[0] is WriteState
            &&& done[1] is EnsureDaemon
            &&& forall|i: int|
                0 <= i < incoming.len() ==> model::has_name(written, (#[trigger] incoming[i]).name)
            &&& forall|k: int|
                0 <= k < written.len() && model::has_name(incoming, (#[trigger] written[k]).name)
                    ==> !written[k].paused && supervise::wanted(written[k]) == written[k].instances
        }),
{
    let base = if replace {
        Seq::empty()
    } else {
        apps
    };
    let more = taken_in(incoming, true);
    registry::registered_apps_stay_resumed(base, more);
    let written = registry::with_apps(base, more);
    assert forall|i: int| 0 <= i < incoming.len() implies model::has_name(written, (#[trigger] incoming[i]).name) by {
        assert(more[i].name == incoming[i].name);
    }
    assert forall|k: int|
        0 <= k < written.len() && model::has_name(incoming, (#[trigger] written[k]).name) implies !written[k].paused by {
        let i = choose|i: int| 0 <= i < incoming.len() && #[trigger] incoming[i].name == written[k].name;
        assert(more[i].name == written[k].name);
    }
}

/// A deleted app is neither registered nor known to run, so that the daemon has nothing of it.
pub proof fn deleted_app_is_gone(apps: Seq<AppView>, runtime: Runtime, name: Seq<char>)
    ensures
        ({
            let done = delete_effects(apps, runtime, Some(name));
            let n = done.len();
            &&& n >= 2
            &&& done[n - 2] is WriteState
            &&& done[n - 1] is WriteRuntime
            &&& !model::has_name(done[n - 2]->WriteState_0, name)
            &&& !done[n - 1]->WriteRuntime_0.dom().contains(name)
        }),
{
    registry::dropped_name_is_gone(apps, name);
}

proof fn ends_hold(pids: Seq<i32>, signal: Option<i32>, pid: i32)
    ensures
        ends(pids, signal).contains(end_effect(pid, signal)) <==> pids.contains(pid),
        forall|q: int|
            0 <= q < pids.len() ==> #[trigger] ends(pids, signal)[q] == end_effect(pids[q], signal),
        ends(pids, signal).len() == pids.len(),
{
    let e = ends(pids, signal);
    if e.contains(end_effect(pid, signal)) {
        let q = choose|q: int| 0 <= q < e.len() && e[q] == end_effect(pid, signal);
        assert(pids[q] == pid);
    }
    if pids.contains(pid) {
        let q = choose|q: int| 0 <= q < pids.len() && pids[q] == pid;
        assert(e[q] == end_effect(pid, signal));
    }
}

/// Whether an effect ends a process in this way, or says something.
spec fn ends_or_says(e: EffectView, signal: Option<i32>) -> bool {
    e is Print || match signal {
        Some(n) => e is EndGracefully && e->EndGracefully_signal == n,
        None => e is End,
    }
}

proof fn ends_all_hold(s: RuntimeView, signal: Option<i32>, said: Option<Seq<char>>, pid: i32)
    ensures
        ends_all(s, signal, said).contains(end_effect(pid, signal)) <==> supervise::all_live_pids(
            s,
        ).contains(pid),
        forall|q: int|
            0 <= q < ends_all(s, signal, said).len() ==> ends_or_says(
                #[trigger] ends_all(s, signal, said)[q],
                signal,
            ),
        said matches Some(said_) ==> forall|i: int|
            0 <= i < s.len() ==> ends_all(s, signal, said).contains(
                EffectView::Print(said_ + (#[trigger] s[i]).0),
            ),
    decreases s.len(),
{
    if s.len() > 0 {
        let t = s.drop_last();
        let x = end_effect(pid, signal);
        ends_all_hold(t, signal, said, pid);
        let a = ends_all(t, signal, said);
        let live = supervise::live_pids(s.last().1);
        let b = ends(live, signal);
        let all = ends_all(s, signal, said);
        ends_hold(live, signal, pid);
        assert forall|q: int| 0 <= q < all.len() implies ends_or_says(#[trigger] all[q], signal) by {
            if q < a.len() {
                assert(all[q] == a[q]);
            } else if q < a.len() + b.len() {
                assert(all[q] == b[q - a.len()]);
            }
        }
        let p = supervise::all_live_pids(t);
        let all_pids = supervise::all_live_pids(s);
        if all.contains(x) {
            let q = choose|q: int| 0 <= q < all.len() && all[q] == x;
            if q < a.len() {
                assert(a[q] == x);
                assert(a.contains(x));
                let k = choose|k: int| 0 <= k < p.len() && p[k] == pid;
                assert(all_pids[k] == pid);
            } else {
                assert(q < a.len() + b.len());
                assert(b[q - a.len()] == x);
                assert(b.contains(x));
                let k = choose|k: int| 0 <= k < live.len() && live[k] == pid;
                assert(all_pids[p.len() + k] == pid);
            }
        }
        if all_pids.contains(pid) {
            let k = choose|k: int| 0 <= k < all_pids.len() && all_pids[k] == pid;
            if k < p.len() {
                assert(p[k] == pid);
                assert(p.contains(pid));
                let q = choose|q: int| 0 <= q < a.len() && a[q] == x;
                assert(all[q] == x);
            } else {
                assert(live[k - p.len()] == pid);
                assert(live.contains(pid));
                let q = choose|q: int| 0 <= q < b.len() && b[q] == x;
                assert(all[a.len() + q] == x);
            }
        }
        if let Some(said_) = said {
            assert forall|i: int| 0 <= i < s.len() implies all.contains(
                EffectView::Print(said_ + (#[trigger] s[i]).0),
            ) by {
                if i < t.len() {
                    assert(t[i] == s[i]);
                    let q = choose|q: int| 0 <= q < a.len() && a[q] == EffectView::Print(said_ + t[i].0);
                    assert(all[q] == a[q]);
                } else {
                    assert(all.last() == EffectView::Print(said_ + s[i].0));
                }
            }
        }
    }
}

proof fn contains_before(a: Seq<EffectView>, last: EffectView, x: EffectView)
    requires
        last != x,
    ensures
        a.push(last).contains(x) <==> a.contains(x),
{
    let b = a.push(last);
    if b.contains(x) {
        let q = choose|q: int| 0 <= q < b.len() && b[q] == x;
        assert(a[q] == x);
    }
    if a.contains(x) {
        let q = choose|q: int| 0 <= q < a.len() && a[q] == x;
        assert(b[q] == x);
    }
}

proof fn ends_named_hold(
    m: Map<Seq<char>, Seq<(usize, InstanceRuntime)>>,
    name: Seq<char>,
    signal: Option<i32>,
    said: Seq<char>,
    pid: i32,
)
    ensures
        ends_named(m, name, signal, said).contains(end_effect(pid, signal)) <==> m.dom().contains(name)
            && supervise::live_pids(m[name]).contains(pid),
        forall|q: int|
            0 <= q < ends_named(m, name, signal, said).len() ==> ends_or_says(
                #[trigger] ends_named(m, name, signal, said)[q],
                signal,
            ),
{
    let all = ends_named(m, name, signal, said);
    let x = end_effect(pid, signal);
    if m.dom().contains(name) {
        let live = supervise::live_pids(m[name]);
        let b = ends(live, signal);
        ends_hold(live, signal, pid);
        contains_before(b, EffectView::Print(said + name), x);
        assert forall|q: int| 0 <= q < all.len() implies ends_or_says(#[trigger] all[q], signal) by {
            if q < b.len() {
                assert(all[q] == b[q]);
            }
        }
    } else {
        assert(all.len() == 1 && all[0] is Print);
        if all.contains(x) {
            let q = choose|q: int| 0 <= q < all.len() && all[q] == x;
            assert(q == 0);
        }
    }
}

/// Whether a process is that of a known instance of the app that is meant, or of any app.
pub open spec fn is_process_of(runtime: Runtime, name: Option<Seq<char>>, pid: i32) -> bool {
    &&& pid > 0
    &&& match name {
        Some(name) => runtime.map().dom().contains(name) && exists|j: int|
            0 <= j < runtime.map()[name].len() && (#[trigger] runtime.map()[name][j]).1.pid == pid,
        None => exists|i: int, j: int|
            0 <= i < runtime@.len() && 0 <= j < runtime@[i].1.len() && (
            #[trigger] runtime@[i].1[j]).1.pid == pid,
    }
}

/// Stopping an app ends every process of it gracefully with the signal that was asked for,
/// whatever else is known of its instances, and ends no other process. Then the app is
/// written as paused. Every other app, and everything else about the app, is written as
/// before. Without a name all apps are meant.
pub proof fn stopping_ends_every_process(
    apps: Seq<AppView>,
    runtime: Runtime,
    name: Option<Seq<char>>,
    signal: i32,
    pid: i32,
)
    ensures
        ({
            let done = stop_effects(apps, runtime, name, signal);
            let last = done.last();
            &&& done.contains(EffectView::EndGracefully { pid, signal }) <==> is_process_of(
                runtime,
                name,
                pid,
            )
            &&& forall|q: int|
                0 <= q < done.len() - 1 ==> (#[trigger] done[q]) is Print || (done[q] is EndGracefully
                    && done[q]->EndGracefully_signal == signal)
            &&& done.len() > 0 && last is WriteState
            &&& written_with_pause(apps, last->WriteState_0, name, true)
        }),
{
    let done = stop_effects(apps, runtime, name, signal);
    let ended = done.drop_last();
    let x = EffectView::EndGracefully { pid, signal };
    assert(x == end_effect(pid, Some(signal)));
    match name {
        None => {
            ends_all_hold(runtime@, Some(signal), Some("Stopped "@), pid);
            supervise::processes_are_those_of_apps(runtime@, pid);
            assert(ended =~= ends_all(runtime@, Some(signal), Some("Stopped "@)));
        },
        Some(name) => {
            ends_named_hold(runtime.map(), name, Some(signal), "Stopped "@, pid);
            supervise::processes_are_those_of_instances(runtime.map()[name], pid);
            assert(ended =~= ends_named(runtime.map(), name, Some(signal), "Stopped "@));
        },
    }
    contains_before(ended, done.last(), x);
    assert(ended.push(done.last()) =~= done);
    assert forall|q: int| 0 <= q < done.len() - 1 implies (#[trigger] done[q]) is Print || (
    done[q] is EndGracefully && done[q]->EndGracefully_signal == signal) by {
        assert(done[q] == ended[q]);
    }
    registry::pausing_changes_nothing_else(apps, name, true);
}

/// What was written are the apps as they were, in order, but for those that are meant, which
/// are paused or resumed.
pub open spec fn written_with_pause(
    apps: Seq<AppView>,
    written: Seq<AppView>,
    name: Option<Seq<char>>,
    paused: bool,
) -> bool {
    &&& written.len() == apps.len()
    &&& forall|i: int|
        0 <= i < apps.len() ==> {
            let a = apps[i];
            let w = #[trigger] written[i];
            &&& w.name == a.name && w.cmd == a.cmd && w.args == a.args && w.instances == a.instances
            &&& w.created_at == a.created_at && w.env_file == a.env_file && w.clean_env == a.clean_env
            &&& w.paused == (if name is None || name == Some(a.name) {
                paused
            } else {
                a.paused
            })
        }
}

/// Restarting an app ends every process of it gracefully with the signal that was asked for,
/// whatever else is known of its instances, and ends no other process. Then the app is
/// written as resumed, with everything else as before, and the daemon is seen to. Without a
/// name all apps are meant.
pub proof fn restarting_ends_every_process(
    apps: Seq<AppView>,
    runtime: Runtime,
    name: Option<Seq<char>>,
    signal: i32,
    pid: i32,
)
    ensures
        ({
            let done = restart_effects(apps, runtime, name, signal);
            let n = done.len();
            &&& done.contains(EffectView::EndGracefully { pid, signal }) <==> is_process_of(
                runtime,
                name,
                pid,
            )
            &&& n >= 3
            &&& forall|q: int|
                0 <= q < n - 3 ==> (#[trigger] done[q]) is EndGracefully
                    && done[q]->EndGracefully_signal == signal
            &&& done[n - 3] is WriteState
            &&& written_with_pause(apps, done[n - 3]->WriteState_0, name, false)
            &&& done[n - 2] is EnsureDaemon
            &&& done[n - 1] is Print
        }),
{
    let done = restart_effects(apps, runtime, name, signal);
    let n = done.len();
    let x = EffectView::EndGracefully { pid, signal };
    assert(x == end_effect(pid, Some(signal)));
    let ended = match name {
        None => ends_all(runtime@, Some(signal), None),
        Some(name) => if runtime.map().dom().contains(name) {
            ends(supervise::live_pids(runtime.map()[name]), Some(signal))
        } else {
            Seq::empty()
        },
    };
    match name {
        None => {
            ends_all_hold(runtime@, Some(signal), None, pid);
            supervise::processes_are_those_of_apps(runtime@, pid);
            ends_all_says_nothing(runtime@, signal);
        },
        Some(name) => {
            let live = supervise::live_pids(runtime.map()[name]);
            ends_hold(live, Some(signal), pid);
            supervise::processes_are_those_of_instances(runtime.map()[name], pid);
        },
    }
    contains_before(ended, done[n - 3], x);
    contains_before(ended.push(done[n - 3]), done[n - 2], x);
    contains_before(ended.push(done[n - 3]).push(done[n - 2]), done[n - 1], x);
    assert(ended.push(done[n - 3]).push(done[n - 2]).push(done[n - 1]) =~= done);
    assert forall|q: int| 0 <= q < n - 3 implies (#[trigger] done[q]) is EndGracefully
        && done[q]->EndGracefully_signal == signal by {
        assert(done[q] == ended[q]);
    }
    registry::pausing_changes_nothing_else(apps, name, false);
}

proof fn ends_all_says_nothing(s: RuntimeView, signal: i32)
    ensures
        forall|q: int|
            0 <= q < ends_all(s, Some(signal), None).len() ==> (#[trigger] ends_all(s, Some(signal), None)[q])
                is EndGracefully && ends_all(s, Some(signal), None)[q]->EndGracefully_signal == signal,
    decreases s.len(),
{
    if s.len() > 0 {
        let a = ends_all(s.drop_last(), Some(signal), None);
        let live = supervise::live_pids(s.last().1);
        let all = ends_all(s, Some(signal), None);
        ends_all_says_nothing(s.drop_last(), signal);
        ends_hold(live, Some(signal), 0);
        assert forall|q: int| 0 <= q < all.len() implies (#[trigger] all[q]) is EndGracefully
            && all[q]->EndGracefully_signal == signal by {
            if q < a.len() {
                assert(all[q] == a[q]);
            } else {
                assert(all[q] == ends(live, Some(signal))[q - a.len()]);
            }
        }
    }
}

/// Deleting an app asks every process of it to end, whatever else is known of its instances,
/// and no other process. Then the other apps are written, as they were and in order, and what
/// is known of them. Without a name all apps are meant, and none is left.
pub proof fn deleting_ends_every_process(
    apps: Seq<AppView>,
    runtime: Runtime,
    name: Option<Seq<char>>,
    pid: i32,
    app: AppView,
    other: Seq<char>,
)
    ensures
        ({
            let done = delete_effects(apps, runtime, name);
            let n = done.len();
            let left = done[n - 2]->WriteState_0;
            let known = done[n - 1]->WriteRuntime_0;
            &&& done.contains(EffectView::End { pid }) <==> is_process_of(runtime, name, pid)
            &&& n >= 2
            &&& forall|q: int| 0 <= q < n - 2 ==> (#[trigger] done[q]) is Print || done[q] is End
            &&& done[n - 2] is WriteState
            &&& left.contains(app) <==> name is Some && app.name != name->0 && apps.contains(app)
            &&& done[n - 1] is WriteRuntime
            &&& known.dom().contains(other) <==> name is Some && other != name->0
                && runtime.map().dom().contains(other)
            &&& known.dom().contains(other) ==> known[other] == runtime.map()[other]
        }),
{
    let done = delete_effects(apps, runtime, name);
    let n = done.len();
    let x = EffectView::End { pid };
    assert(x == end_effect(pid, None));
    let ended = match name {
        None => ends_all(runtime@, None, Some("Deleted "@)),
        Some(name) => ends_named(runtime.map(), name, None, "Deleted "@),
    };
    match name {
        None => {
            ends_all_hold(runtime@, None, Some("Deleted "@), pid);
            supervise::processes_are_those_of_apps(runtime@, pid);
        },
        Some(name) => {
            ends_named_hold(runtime.map(), name, None, "Deleted "@, pid);
            supervise::processes_are_those_of_instances(runtime.map()[name], pid);
            registry::dropping_keeps_the_rest(apps, name, app);
        },
    }
    contains_before(ended, done[n - 2], x);
    contains_before(ended.push(done[n - 2]), done[n - 1], x);
    assert(ended.push(done[n - 2]).push(done[n - 1]) =~= done);
    assert forall|q: int| 0 <= q < n - 2 implies (#[trigger] done[q]) is Print || done[q] is End by {
        assert(done[q] == ended[q]);
    }
}

/// Registering an app writes it behind the others, which stay as they were, in place of one
/// of the same name. The system is asked to start the daemon by itself unless that is
/// declined. Then the user stays with the app, or the daemon is seen to.
pub proof fn running_registers_the_app(
    apps: Seq<AppView>,
    app: AppView,
    foreground: bool,
    no_autostart: bool,
    other: AppView,
)
    ensures
        ({
            let done = run_effects(apps, app, foreground, no_autostart);
            let written = done[0]->WriteState_0;
            &&& done[0] is WriteState
            &&& written.len() > 0 && written.last() == app
            &&& other.name != app.name ==> (written.contains(other) <==> apps.contains(other))
            &&& other.name == app.name ==> (written.contains(other) <==> other == app)
            &&& done.contains(EffectView::Install) <==> !no_autostart
            &&& done.contains(EffectView::Foreground) <==> foreground
            &&& done.contains(EffectView::EnsureDaemon) <==> !foreground
            &&& done.len() == 2 + (if no_autostart { 0int } else { 1 }) + (if foreground { 0int } else { 1 })
        }),
{
    let done = run_effects(apps, app, foreground, no_autostart);
    registry::dropping_keeps_the_rest(apps, app.name, other);
    let rest = model::without_name(apps, app.name);
    let written = rest.push(app);
    if written.contains(other) {
        let k = choose|k: int| 0 <= k < written.len() && written[k] == other;
        if k < rest.len() {
            assert(rest[k] == other);
        }
    }
    if rest.contains(other) {
        let k = choose|k: int| 0 <= k < rest.len() && rest[k] == other;
        assert(written[k] == other);
    }
    assert(written[rest.len() as int] == app);
    if !no_autostart {
        assert(done[1] is Install);
    }
    if foreground {
        assert(done[done.len() - 1] is Foreground);
    } else {
        assert(done[done.len() - 2] is EnsureDaemon);
    }
}

/// What is said of an app that was registered holds its name, its command and its number of
/// instances.
pub proof fn registered_text_says_it_all(name: Seq<char>, cmd: Seq<char>, instances: nat)
    ensures
        text::occurs("OK: '"@ + name + "' -> "@, registered_text(name, cmd, instances)),
        text::occurs("' -> "@ + cmd + " ("@, registered_text(name, cmd, instances)),
        text::occurs(
            " ("@ + text::decimal(instances) + " instance"@,
            registered_text(name, cmd, instances),
        ),
{
    let t = registered_text(name, cmd, instances);
    let d = text::decimal(instances);
    let end = if instances == 1 {
        ""@
    } else {
        "s"@
    };
    let none = Seq::<char>::empty();
    let named = "OK: '"@ + name + "' -> "@;
    let ran = named + cmd + " ("@;
    let counted = ran + d + " instance"@;
    text::occurs_between(none, named, cmd);
    text::occurs_before(named, named + cmd, " ("@);
    text::occurs_before(named, ran, d);
    text::occurs_before(named, ran + d, " instance"@);
    text::occurs_before(named, counted, end);
    text::occurs_before(named, counted + end, ")"@);
    let command = "' -> "@ + cmd + " ("@;
    text::occurs_at_end("OK: '"@ + name, "' -> "@, cmd, " ("@);
    text::occurs_before(command, ran, d);
    text::occurs_before(command, ran + d, " instance"@);
    text::occurs_before(command, counted, end);
    text::occurs_before(command, counted + end, ")"@);
    let number = " ("@ + d + " instance"@;
    text::occurs_at_end(named + cmd, " ("@, d, " instance"@);
    text::occurs_before(number, counted, end);
    text::occurs_before(number, counted + end, ")"@);
    assert(t == counted + end + ")"@);
}

/// What is said of an effect is all that is to be done.
pub proof fn effects_say_what_is_done(e: Effect, s: Seq<Effect>, i: int)
    ensures
        e matches Effect::Print(t) ==> e@ == EffectView::Print(t@),
        e matches Effect::WriteState(t) ==> e@ == EffectView::WriteState(t@),
        e matches Effect::WriteRuntime(t) ==> e@ == EffectView::WriteRuntime(t.map()),
        e matches Effect::Export { file, state } ==> e@ == (EffectView::Export {
            file: file@,
            state: state@,
        }),
        e matches Effect::EndGracefully { pid, signal } ==> e@ == (EffectView::EndGracefully { pid, signal }),
        e matches Effect::End { pid } ==> e@ == (EffectView::End { pid }),
        e is Install ==> e@ == EffectView::Install,
        e is EnsureDaemon ==> e@ == EffectView::EnsureDaemon,
        e is Foreground ==> e@ == EffectView::Foreground,
        effect_views(s).len() == s.len(),
        0 <= i < s.len() ==> effect_views(s)[i] == s[i]@,
{
}

/// An import writes the apps of the file behind those that are registered, or in their place,
/// and an app that the file has too only once, as the file has it last. The daemon is seen to
/// exactly where the apps are to be started.
pub proof fn importing_registers_the_apps(
    apps: Seq<AppView>,
    incoming: Seq<AppView>,
    file: Seq<char>,
    replace: bool,
    start: bool,
    app: AppView,
)
    ensures
        ({
            let done = import_effects(apps, incoming, file, replace, start);
            let written = done[0]->WriteState_0;
            &&& done.len() == (if start { 3nat } else { 2 })
            &&& done[0] is WriteState
            &&& start ==> done[1] is EnsureDaemon
            &&& done.last() == EffectView::Print("Imported "@ + file)
            &&& !model::has_name(incoming, app.name) ==> (written.contains(app) <==> !replace && apps.contains(
                app,
            ))
            &&& written.contains(app) && model::has_name(incoming, app.name) ==> exists|i: int|
                0 <= i < incoming.len() && (#[trigger] incoming[i]).name == app.name && incoming[i].cmd
                    == app.cmd && incoming[i].args == app.args && incoming[i].instances == app.instances
                    && incoming[i].created_at == app.created_at && incoming[i].env_file == app.env_file
                    && incoming[i].clean_env == app.clean_env && app.paused == (!start
                    && incoming[i].paused)
        }),
{
    let base = if replace {
        Seq::empty()
    } else {
        apps
    };
    let more = taken_in(incoming, start);
    let written = registry::with_apps(base, more);
    registry::registering_all_takes_each(base, more, app);
    assert(more.len() == incoming.len());
    if model::has_name(incoming, app.name) {
        let i = choose|i: int| 0 <= i < incoming.len() && #[trigger] incoming[i].name == app.name;
        assert(more[i].name == app.name);
        if written.contains(app) {
            let k = choose|k: int| 0 <= k < more.len() && more[k] == app;
            assert(incoming[k].name == app.name);
        }
    } else if model::has_name(more, app.name) {
        let i = choose|i: int| 0 <= i < more.len() && #[trigger] more[i].name == app.name;
        assert(incoming[i].name == app.name);
    }
}

/// Stopping or deleting a named app says so where its processes are known, and says that they
/// are not otherwise. For all apps each of those that are known is named.
pub proof fn ended_apps_are_named(apps: Seq<AppView>, runtime: Runtime, name: Seq<char>, signal: i32, i: int)
    ensures
        runtime.map().dom().contains(name) ==> stop_effects(apps, runtime, Some(name), signal).contains(
            EffectView::Print("Stopped "@ + name),
        ) && delete_effects(apps, runtime, Some(name)).contains(EffectView::Print("Deleted "@ + name)),
        !runtime.map().dom().contains(name) ==> stop_effects(apps, runtime, Some(name), signal)[0]
            == EffectView::Print("No runtime for "@ + name) && delete_effects(apps, runtime, Some(name))[0]
            == EffectView::Print("No runtime for "@ + name),
        0 <= i < runtime@.len() ==> stop_effects(apps, runtime, None, signal).contains(
            EffectView::Print("Stopped "@ + runtime@[i].0),
        ) && delete_effects(apps, runtime, None).contains(EffectView::Print("Deleted "@ + runtime@[i].0)),
{
    let stop = stop_effects(apps, runtime, Some(name), signal);
    let delete = delete_effects(apps, runtime, Some(name));
    if runtime.map().dom().contains(name) {
        let live = supervise::live_pids(runtime.map()[name]);
        ends_hold(live, Some(signal), 0);
        ends_hold(live, None, 0);
        assert(stop[live.len() as int] == EffectView::Print("Stopped "@ + name));
        assert(delete[live.len() as int] == EffectView::Print("Deleted "@ + name));
    }
    if 0 <= i < runtime@.len() {
        ends_all_hold(runtime@, Some(signal), Some("Stopped "@), 0);
        ends_all_hold(runtime@, None, Some("Deleted "@), 0);
        let a = ends_all(runtime@, Some(signal), Some("Stopped "@));
        let b = ends_all(runtime@, None, Some("Deleted "@));
        let x = EffectView::Print("Stopped "@ + runtime@[i].0);
        let y = EffectView::Print("Deleted "@ + runtime@[i].0);
        assert(a.contains(x));
        assert(b.contains(y));
        let p = choose|p: int| 0 <= p < a.len() && a[p] == x;
        let q = choose|q: int| 0 <= q < b.len() && b[q] == y;
        assert(stop_effects(apps, runtime, None, signal)[p] == x);
        assert(delete_effects(apps, runtime, None)[q] == y);
    }
}

/// A restart says the name that it was about, or that it was about all.
pub proof fn restart_names_its_target(apps: Seq<AppView>, runtime: Runtime, name: Seq<char>, signal: i32)
    ensures
        restart_effects(apps, runtime, Some(name), signal).last() == EffectView::Print("Restarted "@ + name),
        restart_effects(apps, runtime, None, signal).last() == EffectView::Print("Restarted "@ + "all"@),
{
}

/// A command is about all apps where all are asked for, and otherwise about the one that is
/// named.
pub proof fn target_is_what_is_asked_for(name: &str, other: Option<&str>)
    ensures
        target(Some(name), false) == Some(name@),
        target(None, false) is None,
        target(other, true) is None,
{
}

/// An app that is not registered is named as it was given.
pub proof fn unknown_app_is_named(name: String)
    ensures
        text::occurs("'"@ + name@ + "'"@, CommandError::NotRegistered { name }.text()),
{
    reveal_strlit("No app named '");
    reveal_strlit("'");
    reveal_strlit("No app named ");
    reveal_strlit("' registered. Use `runner run` first.");
    reveal_strlit(" registered. Use `runner run` first.");
    let a = "No app named "@;
    let b = " registered. Use `runner run` first."@;
    text::occurs_between(a, "'"@ + name@ + "'"@, b);
    assert("No app named '"@ =~= a + "'"@);
    assert("' registered. Use `runner run` first."@ =~= "'"@ + b);
    assert(a + "'"@ + name@ + ("'"@ + b) =~= a + ("'"@ + name@ + "'"@) + b);
}

} // verus!
