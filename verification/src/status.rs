//! The status of the registered apps: a snapshot, and how it is shown.
use vstd::prelude::*;
use vstd::string::*;

use crate::model;
use crate::model::{AppConfig, AppRuntime, AppView, InstanceRuntime, Runtime};
use crate::text;
use crate::text::{copy_texts, join, pad, write_decimal, write_integer};

verus! {

/// The status of an instance.
#[derive(Debug, Clone, Copy, PartialEq, Eq)]
pub struct StatusInstance {
    pub index: usize,
    pub pid: Option<i32>,
    pub alive: bool,
    pub started_at: Option<u64>,
    pub uptime_secs: Option<u64>,
    pub restarts: u64,
    pub last_exit_at: Option<u64>,
    pub last_exit_code: Option<i32>,
    pub last_exit_signal: Option<i32>,
}

/// The status of an app.
#[derive(Debug)]
pub struct StatusApp {
    pub name: String,
    pub cmd: String,
    pub args: Vec<String>,
    pub instances_desired: usize,
    pub running: usize,
    pub total_restarts: u64,
    pub paused: bool,
    pub instances: Vec<StatusInstance>,
}

/// What a `StatusApp` says.
pub struct StatusAppView {
    pub name: Seq<char>,
    pub cmd: Seq<char>,
    pub args: Seq<Seq<char>>,
    pub instances_desired: nat,
    pub running: nat,
    pub total_restarts: nat,
    pub paused: bool,
    pub instances: Seq<StatusInstance>,
}

impl View for StatusApp {
    type V = StatusAppView;

    open spec fn view(&self) -> StatusAppView {
        StatusAppView {
            name: self.name@,
            cmd: self.cmd@,
            args: text::texts(self.args@),
            instances_desired: self.instances_desired as nat,
            running: self.running as nat,
            total_restarts: self.total_restarts as nat,
            paused: self.paused,
            instances: self.instances@,
        }
    }
}

/// The status of all apps at one time.
#[derive(Debug)]
pub struct StatusSnapshot {
    /// In Unix seconds.
    pub generated_at: u64,
    pub apps: Vec<StatusApp>,
}

/// What a list of statuses says.
pub open spec fn status_views(s: Seq<StatusApp>) -> Seq<StatusAppView> {
    s.map_values(|a: StatusApp| a@)
}

/// What a `StatusSnapshot` says.
pub struct SnapshotView {
    pub generated_at: nat,
    pub apps: Seq<StatusAppView>,
}

impl View for StatusSnapshot {
    type V = SnapshotView;

    open spec fn view(&self) -> SnapshotView {
        SnapshotView { generated_at: self.generated_at as nat, apps: status_views(self.apps@) }
    }
}

/// The instances that are known of an app.
pub open spec fn known(runtime: Runtime, name: Seq<char>) -> Map<usize, InstanceRuntime> {
    if runtime.map().dom().contains(name) {
        model::pairs_map(runtime.map()[name])
    } else {
        Map::empty()
    }
}

/// What is known of an instance, or that it was never started.
pub open spec fn instance_of(m: Map<usize, InstanceRuntime>, idx: int) -> InstanceRuntime {
    if m.dom().contains(idx as usize) {
        m[idx as usize]
    } else {
        model::fresh_instance()
    }
}

fn find_instance(rt: Option<&AppRuntime>, idx: usize) -> (r: InstanceRuntime)
    requires
        rt is Some ==> rt->0.wf(),
    ensures
        r == instance_of(
            (if rt is Some {
                rt->0.map()
            } else {
                Map::empty()
            }),
            idx as int,
        ),
{
    if let Some(rt) = rt {
        if let Some(inst) = rt.get(idx) {
            return inst;
        }
    }
    InstanceRuntime::default()
}

/// Whether an instance runs, where `live` are the processes that are alive.
pub open spec fn is_up(inst: InstanceRuntime, live: Seq<i32>) -> bool {
    inst.pid > 0 && live.contains(inst.pid)
}

fn contains_pid(live: &Vec<i32>, pid: i32) -> (r: bool)
    ensures
        r == live@.contains(pid),
{
    let mut i: usize = 0;
    while i < live.len()
        invariant
            i <= live@.len(),
            forall|k: int| 0 <= k < i ==> live@[k] != pid,
        decreases live@.len() - i,
    {
        if live[i] == pid {
            return true;
        }
        i += 1;
    }
    false
}

/// The status of an instance. Only what runs has an uptime, and only where its start does
/// not lie ahead.
pub open spec fn instance_status(
    inst: InstanceRuntime,
    idx: int,
    live: Seq<i32>,
    now: u64,
) -> StatusInstance {
    let alive = is_up(inst, live);
    StatusInstance {
        index: idx as usize,
        pid: if inst.pid > 0 {
            Some(inst.pid)
        } else {
            None
        },
        alive,
        started_at: if inst.started_at > 0 {
            Some(inst.started_at)
        } else {
            None
        },
        uptime_secs: if alive && inst.started_at > 0 && inst.started_at <= now {
            Some((now - inst.started_at) as u64)
        } else {
            None
        },
        restarts: inst.restarts,
        last_exit_at: inst.last_exit_at,
        last_exit_code: inst.last_exit_code,
        last_exit_signal: inst.last_exit_signal,
    }
}

/// The status of each of `n` instances.
pub open spec fn instance_statuses(
    m: Map<usize, InstanceRuntime>,
    n: nat,
    live: Seq<i32>,
    now: u64,
) -> Seq<StatusInstance> {
    Seq::new(n, |i: int| instance_status(instance_of(m, i), i, live, now))
}

/// How many instances are up.
pub open spec fn count_up(s: Seq<StatusInstance>) -> nat
    decreases s.len(),
{
    if s.len() == 0 {
        0
    } else {
        count_up(s.drop_last()) + if s.last().alive {
            1nat
        } else {
            0nat
        }
    }
}

/// The restarts of all instances together.
pub open spec fn sum_restarts(s: Seq<StatusInstance>) -> nat
    decreases s.len(),
{
    if s.len() == 0 {
        0
    } else {
        sum_restarts(s.drop_last()) + s.last().restarts as nat
    }
}

/// The status of an app.
pub open spec fn app_status(app: AppView, runtime: Runtime, live: Seq<i32>, now: u64) -> StatusAppView {
    let instances = instance_statuses(known(runtime, app.name), app.instances, live, now);
    StatusAppView {
        name: app.name,
        cmd: app.cmd,
        args: app.args,
        instances_desired: app.instances,
        running: count_up(instances),
        total_restarts: sum_restarts(instances),
        paused: app.paused,
        instances,
    }
}

/// The restarts of each app together fit their type. They do not depend on what is alive.
pub open spec fn totals_in_range(apps: Seq<AppView>, runtime: Runtime) -> bool {
    forall|i: int|
        0 <= i < apps.len() ==> sum_restarts(
            instance_statuses(
                known(runtime, (#[trigger] apps[i]).name),
                apps[i].instances,
                Seq::empty(),
                0,
            ),
        ) <= u64::MAX
}

proof fn sum_ignores_life(m: Map<usize, InstanceRuntime>, n: nat, live: Seq<i32>, now: u64)
    ensures
        sum_restarts(instance_statuses(m, n, live, now)) == sum_restarts(
            instance_statuses(m, n, Seq::empty(), 0),
        ),
    decreases n,
{
    if n > 0 {
        let k = (n - 1) as nat;
        sum_ignores_life(m, k, live, now);
        assert(instance_statuses(m, n, live, now).drop_last() =~= instance_statuses(m, k, live, now));
        assert(instance_statuses(m, n, Seq::empty(), 0).drop_last() =~= instance_statuses(
            m,
            k,
            Seq::empty(),
            0,
        ));
    }
}

proof fn sum_grows(s: Seq<StatusInstance>, k: int)
    requires
        0 <= k <= s.len(),
    ensures
        sum_restarts(s.take(k)) <= sum_restarts(s),
    decreases s.len(),
{
    if k == s.len() {
        assert(s.take(k) =~= s);
    } else {
        assert(s.drop_last().take(k) =~= s.take(k));
        sum_grows(s.drop_last(), k);
    }
}

/// Whether the restarts of each app together fit their type.
pub fn totals_fit(apps: &Vec<AppConfig>, runtime: &Runtime) -> (r: bool)
    requires
        runtime.wf(),
    ensures
        r == totals_in_range(model::app_views(apps@), *runtime),
{
    let ghost views = model::app_views(apps@);
    let mut i: usize = 0;
    while i < apps.len()
        invariant
            runtime.wf(),
            i <= apps@.len(),
            views == model::app_views(apps@),
            totals_in_range(views.take(i as int), *runtime),
        decreases apps@.len() - i,
    {
        let app = &apps[i];
        let ghost m = known(*runtime, app@.name);
        let ghost all = instance_statuses(m, app@.instances, Seq::empty(), 0);
        assert(views[i as int] == app@);
        let rt = runtime.get(app.name.as_str());
        let mut total: u64 = 0;
        let mut idx: usize = 0;
        assert(all.take(0) =~= Seq::empty());
        while idx < app.instances
            invariant
                rt is Some ==> rt->0.wf(),
                m == (if rt is Some {
                    rt->0.map()
                } else {
                    Map::empty()
                }),
                m == known(*runtime, app@.name),
                all == instance_statuses(m, app@.instances, Seq::empty(), 0),
                idx <= app.instances,
                total == sum_restarts(all.take(idx as int)),
                views == model::app_views(apps@),
                i < views.len(),
                views[i as int] == app@,
            decreases app.instances - idx,
        {
            let inst = find_instance(rt, idx);
            assert(all.take(idx + 1).drop_last() =~= all.take(idx as int));
            assert(all.take(idx + 1).last() == all[idx as int]);
            match total.checked_add(inst.restarts) {
                Some(t) => {
                    total = t;
                },
                None => {
                    proof {
                        sum_grows(all, idx + 1);
                        assert(sum_restarts(
                            instance_statuses(
                                known(*runtime, views[i as int].name),
                                views[i as int].instances,
                                Seq::empty(),
                                0,
                            ),
                        ) > u64::MAX);
                    }
                    return false;
                },
            }
            idx += 1;
        }
        assert(all.take(idx as int) =~= all);
        let ghost part = views.take(i + 1);
        assert forall|k: int| 0 <= k < part.len() implies sum_restarts(
            instance_statuses(
                known(*runtime, (#[trigger] part[k]).name),
                part[k].instances,
                Seq::empty(),
                0,
            ),
        ) <= u64::MAX by {
            if k < i {
                assert(views.take(i as int)[k] == part[k]);
            } else {
                assert(part[k] == app@);
            }
        }
        i += 1;
    }
    assert(views.take(i as int) =~= views);
    true
}

/// The processes whose life matters for the status: those of the instances that apps
/// should have.
pub open spec fn app_pids(m: Map<usize, InstanceRuntime>, n: nat) -> Seq<i32>
    decreases n,
{
    if n == 0 {
        Seq::empty()
    } else {
        let before = app_pids(m, (n - 1) as nat);
        if instance_of(m, n - 1).pid > 0 {
            before.push(instance_of(m, n - 1).pid)
        } else {
            before
        }
    }
}

/// The processes whose life matters for the status, app by app.
pub open spec fn pids_of(apps: Seq<AppView>, runtime: Runtime) -> Seq<i32>
    decreases apps.len(),
{
    if apps.len() == 0 {
        Seq::empty()
    } else {
        pids_of(apps.drop_last(), runtime) + app_pids(
            known(runtime, apps.last().name),
            apps.last().instances,
        )
    }
}

/// Lists the processes whose life matters for the status.
pub fn status_pids(apps: &Vec<AppConfig>, runtime: &Runtime) -> (r: Vec<i32>)
    requires
        runtime.wf(),
    ensures
        r@ == pids_of(model::app_views(apps@), *runtime),
{
    let ghost views = model::app_views(apps@);
    let mut r: Vec<i32> = Vec::new();
    let mut i: usize = 0;
    assert(views.take(0) =~= Seq::empty());
    while i < apps.len()
        invariant
            runtime.wf(),
            i <= apps@.len(),
            views == model::app_views(apps@),
            r@ == pids_of(views.take(i as int), *runtime),
        decreases apps@.len() - i,
    {
        let app = &apps[i];
        let ghost m = known(*runtime, app@.name);
        let rt = runtime.get(app.name.as_str());
        let ghost before = r@;
        let mut idx: usize = 0;
        assert(before + app_pids(m, 0) =~= before);
        while idx < app.instances
            invariant
                rt is Some ==> rt->0.wf(),
                m == (if rt is Some {
                    rt->0.map()
                } else {
                    Map::empty()
                }),
                idx <= app.instances,
                r@ == before + app_pids(m, idx as nat),
            decreases app.instances - idx,
        {
            let inst = find_instance(rt, idx);
            if inst.pid > 0 {
                r.push(inst.pid);
            }
            idx += 1;
            assert(r@ =~= before + app_pids(m, idx as nat));
        }
        assert(views.take(i + 1).drop_last() =~= views.take(i as int));
        assert(views.take(i + 1).last() == app@);
        i += 1;
    }
    assert(views.take(i as int) =~= views);
    r
}

/// Builds the status of an app.
fn build_app_status(app: &AppConfig, runtime: &Runtime, live: &Vec<i32>, now: u64) -> (r: StatusApp)
    requires
        runtime.wf(),
        sum_restarts(
            instance_statuses(known(*runtime, app@.name), app@.instances, Seq::empty(), 0),
        ) <= u64::MAX,
    ensures
        r@ == app_status(app@, *runtime, live@, now),
{
    let ghost m = known(*runtime, app@.name);
    let ghost all = instance_statuses(m, app@.instances, live@, now);
    proof {
        sum_ignores_life(m, app@.instances, live@, now);
        assert(all.take(0) =~= Seq::empty());
    }
    let rt = runtime.get(app.name.as_str());
    let mut instances: Vec<StatusInstance> = Vec::new();
    let mut running: usize = 0;
    let mut total_restarts: u64 = 0;
    let mut idx: usize = 0;
    while idx < app.instances
        invariant
            rt is Some ==> rt->0.wf(),
            m == (if rt is Some {
                rt->0.map()
            } else {
                Map::empty()
            }),
            all == instance_statuses(m, app@.instances, live@, now),
            sum_restarts(all) <= u64::MAX,
            idx <= app.instances,
            instances@ == all.take(idx as int),
            running == count_up(all.take(idx as int)),
            running <= idx,
            total_restarts == sum_restarts(all.take(idx as int)),
        decreases app.instances - idx,
    {
        let inst = find_instance(rt, idx);
        let alive = inst.pid > 0 && contains_pid(live, inst.pid);
        proof {
            assert(all.take(idx + 1).drop_last() =~= all.take(idx as int));
            assert(all.take(idx + 1).last() == all[idx as int]);
            assert(all[idx as int] == instance_status(inst, idx as int, live@, now));
            sum_grows(all, idx + 1);
        }
        if alive {
            running += 1;
        }
        total_restarts = total_restarts + inst.restarts;
        let started_at = if inst.started_at > 0 {
            Some(inst.started_at)
        } else {
            None
        };
        let uptime_secs = if alive && inst.started_at > 0 {
            now.checked_sub(inst.started_at)
        } else {
            None
        };
        let pid = if inst.pid > 0 {
            Some(inst.pid)
        } else {
            None
        };
        instances.push(
            StatusInstance {
                index: idx,
                pid,
                alive,
                started_at,
                uptime_secs,
                restarts: inst.restarts,
                last_exit_at: inst.last_exit_at,
                last_exit_code: inst.last_exit_code,
                last_exit_signal: inst.last_exit_signal,
            },
        );
        idx += 1;
        assert(instances@ =~= all.take(idx as int));
    }
    assert(all.take(idx as int) =~= all);
    StatusApp {
        name: app.name.clone(),
        cmd: app.cmd.clone(),
        args: copy_texts(&app.args),
        instances_desired: app.instances,
        running,
        total_restarts,
        paused: app.paused,
        instances,
    }
}

/// The status of each app.
pub open spec fn app_statuses(
    apps: Seq<AppView>,
    runtime: Runtime,
    live: Seq<i32>,
    now: u64,
) -> Seq<StatusAppView> {
    apps.map_values(|a: AppView| app_status(a, runtime, live, now))
}

/// Takes a snapshot of the status of apps. `live` are the processes that are alive.
pub fn build_status_snapshot(
    apps: &Vec<AppConfig>,
    runtime: &Runtime,
    live: &Vec<i32>,
    now: u64,
) -> (r: StatusSnapshot)
    requires
        runtime.wf(),
        totals_in_range(model::app_views(apps@), *runtime),
    ensures
        r@.generated_at == now,
        r@.apps == app_statuses(model::app_views(apps@), *runtime, live@, now),
{
    let ghost views = model::app_views(apps@);
    let ghost wanted = app_statuses(views, *runtime, live@, now);
    let mut out: Vec<StatusApp> = Vec::new();
    let mut i: usize = 0;
    while i < apps.len()
        invariant
            runtime.wf(),
            i <= apps@.len(),
            views == model::app_views(apps@),
            totals_in_range(views, *runtime),
            wanted == app_statuses(views, *runtime, live@, now),
            status_views(out@) == wanted.take(i as int),
        decreases apps@.len() - i,
    {
        let ghost before = out@;
        assert(views[i as int] == apps@[i as int]@);
        let status = build_app_status(&apps[i], runtime, live, now);
        let ghost view = status@;
        out.push(status);
        assert(status_views(out@) =~= status_views(before).push(view));
        assert(wanted.take(i + 1) =~= wanted.take(i as int).push(wanted[i as int]));
        i += 1;
    }
    assert(wanted.take(i as int) =~= wanted);
    StatusSnapshot { generated_at: now, apps: out }
}

proof fn count_up_bounded(s: Seq<StatusInstance>)
    ensures
        count_up(s) <= s.len(),
    decreases s.len(),
{
    if s.len() > 0 {
        count_up_bounded(s.drop_last());
    }
}

/// No app has more instances running than it should have, and as many are listed as it
/// should have.
pub proof fn running_is_bounded(app: AppView, runtime: Runtime, live: Seq<i32>, now: u64)
    ensures
        app_status(app, runtime, live, now).running <= app.instances,
        app_status(app, runtime, live, now).instances.len() == app.instances,
{
    count_up_bounded(instance_statuses(known(runtime, app.name), app.instances, live, now));
}

/// Looking at the processes that `status_pids` lists is enough: a life of any other process
/// changes nothing in the status.
pub proof fn only_listed_pids_matter(
    apps: Seq<AppView>,
    runtime: Runtime,
    live: Seq<i32>,
    more: Seq<i32>,
    now: u64,
)
    requires
        forall|pid: i32|
            #[trigger] pids_of(apps, runtime).contains(pid) ==> live.contains(pid) == more.contains(pid),
        forall|i: int| 0 <= i < apps.len() ==> (#[trigger] apps[i]).instances <= usize::MAX,
    ensures
        app_statuses(apps, runtime, live, now) == app_statuses(apps, runtime, more, now),
{
    assert forall|i: int|
        0 <= i < apps.len() implies app_status(#[trigger] apps[i], runtime, live, now)
        == app_status(apps[i], runtime, more, now) by {
        let m = known(runtime, apps[i].name);
        let n = apps[i].instances;
        let a = instance_statuses(m, n, live, now);
        let b = instance_statuses(m, n, more, now);
        assert forall|k: int| 0 <= k < n implies a[k] == b[k] by {
            let inst = instance_of(m, k);
            if inst.pid > 0 {
                app_pids_lists(m, n, k);
                pids_of_lists(apps, runtime, i, inst.pid);
            }
        }
        assert(a =~= b);
    }
    assert(app_statuses(apps, runtime, live, now) =~= app_statuses(apps, runtime, more, now));
}

proof fn app_pids_lists(m: Map<usize, InstanceRuntime>, n: nat, k: int)
    requires
        0 <= k < n,
        instance_of(m, k).pid > 0,
    ensures
        app_pids(m, n).contains(instance_of(m, k).pid),
    decreases n,
{
    let all = app_pids(m, n);
    if k == n - 1 {
        assert(all.last() == instance_of(m, k).pid);
    } else {
        app_pids_lists(m, (n - 1) as nat, k);
        let before = app_pids(m, (n - 1) as nat);
        let j = choose|j: int| 0 <= j < before.len() && before[j] == instance_of(m, k).pid;
        assert(all[j] == before[j]);
    }
}

proof fn pids_of_lists(apps: Seq<AppView>, runtime: Runtime, i: int, pid: i32)
    requires
        0 <= i < apps.len(),
        app_pids(known(runtime, apps[i].name), apps[i].instances).contains(pid),
    ensures
        pids_of(apps, runtime).contains(pid),
    decreases apps.len(),
{
    let before = pids_of(apps.drop_last(), runtime);
    let mine = app_pids(known(runtime, apps.last().name), apps.last().instances);
    if i == apps.len() - 1 {
        let j = choose|j: int| 0 <= j < mine.len() && mine[j] == pid;
        assert((before + mine)[before.len() + j] == pid);
    } else {
        pids_of_lists(apps.drop_last(), runtime, i, pid);
        let j = choose|j: int| 0 <= j < before.len() && before[j] == pid;
        assert((before + mine)[j] == pid);
    }
}

/// The line about an app.
pub open spec fn app_line_of(a: StatusAppView) -> Seq<char> {
    a.name + ": "@ + text::decimal(a.running) + "/"@ + text::decimal(a.instances_desired)
        + " running  restarts="@ + text::decimal(a.total_restarts) + "  "@ + (if a.paused {
        "paused "@
    } else {
        ""@
    }) + "cmd: "@ + a.cmd + " "@ + text::joined(a.args, " "@)
}

pub(crate) fn app_line(a: &StatusApp) -> (r: String)
    ensures
        r@ == app_line_of(a@),
{
    let paused = if a.paused {
        "paused "
    } else {
        ""
    };
    a.name.clone().concat(": ").concat(write_decimal(a.running as u64).as_str()).concat("/").concat(
        write_decimal(a.instances_desired as u64).as_str(),
    ).concat(" running  restarts=").concat(write_decimal(a.total_restarts).as_str()).concat("  ").concat(
        paused,
    ).concat("cmd: ").concat(a.cmd.as_str()).concat(" ").concat(join(&a.args, " ").as_str())
}

/// The part of the line about an instance that is the same everywhere.
pub open spec fn instance_line_of(i: StatusInstance) -> Seq<char> {
    let pid = text::integer(if i.pid is Some {
        i.pid->0 as int
    } else {
        0
    });
    let state = if i.alive {
        "up"@
    } else {
        "down"@
    };
    let uptime = match i.uptime_secs {
        Some(u) => text::decimal(u as nat) + "s"@,
        None => "-"@,
    };
    "["@ + text::decimal(i.index as nat) + "] pid="@ + text::padded(pid, 6) + " "@ + text::padded(state, 4)
        + " uptime="@ + text::padded(uptime, 6) + " restarts="@ + text::padded(
        text::decimal(i.restarts as nat),
        3,
    )
}

pub(crate) fn instance_line(i: &StatusInstance) -> (r: String)
    ensures
        r@ == instance_line_of(*i),
{
    let pid: i32 = match i.pid {
        Some(pid) => pid,
        None => 0,
    };
    let state = if i.alive {
        "up"
    } else {
        "down"
    };
    let uptime = match i.uptime_secs {
        Some(u) => write_decimal(u).concat("s"),
        None => "-".to_owned(),
    };
    "[".to_owned().concat(write_decimal(i.index as u64).as_str()).concat("] pid=").concat(
        pad(write_integer(pid).as_str(), 6).as_str(),
    ).concat(" ").concat(pad(state, 4).as_str()).concat(" uptime=").concat(
        pad(uptime.as_str(), 6).as_str(),
    ).concat(" restarts=").concat(pad(write_decimal(i.restarts).as_str(), 3).as_str())
}

/// An optional number, or a dash.
pub open spec fn number_or_dash(n: Option<int>) -> Seq<char> {
    match n {
        Some(n) => text::integer(n),
        None => "-"@,
    }
}

/// An optional `i32` as an optional number.
pub open spec fn opt_i32(n: Option<i32>) -> Option<int> {
    match n {
        Some(n) => Some(n as int),
        None => None,
    }
}

/// An optional `u64` as an optional number.
pub open spec fn opt_u64(n: Option<u64>) -> Option<int> {
    match n {
        Some(n) => Some(n as int),
        None => None,
    }
}

fn write_opt_i32(n: Option<i32>) -> (r: String)
    ensures
        r@ == number_or_dash(opt_i32(n)),
{
    match n {
        Some(n) => write_integer(n),
        None => "-".to_owned(),
    }
}

fn write_opt_u64(n: Option<u64>) -> (r: String)
    ensures
        r@ == number_or_dash(opt_u64(n)),
{
    match n {
        Some(n) => write_decimal(n),
        None => "-".to_owned(),
    }
}

/// How the last process of an instance ended.
pub open spec fn last_exit_of(i: StatusInstance) -> Seq<char> {
    " last_exit_at="@ + number_or_dash(opt_u64(i.last_exit_at)) + " code="@ + number_or_dash(
        opt_i32(i.last_exit_code),
    ) + " sig="@ + number_or_dash(opt_i32(i.last_exit_signal))
}

fn last_exit(i: &StatusInstance) -> (r: String)
    ensures
        r@ == last_exit_of(*i),
{
    " last_exit_at=".to_owned().concat(write_opt_u64(i.last_exit_at).as_str()).concat(" code=").concat(
        write_opt_i32(i.last_exit_code).as_str(),
    ).concat(" sig=").concat(write_opt_i32(i.last_exit_signal).as_str())
}

/// The line about an instance and the end of its last process.
pub open spec fn full_instance_line_of(i: StatusInstance) -> Seq<char> {
    "  "@ + instance_line_of(i) + last_exit_of(i) + "\n"@
}

fn full_instance_line(i: &StatusInstance) -> (r: String)
    ensures
        r@ == full_instance_line_of(*i),
{
    "  ".to_owned().concat(instance_line(i).as_str()).concat(last_exit(i).as_str()).concat("\n")
}

/// The lines about instances.
pub open spec fn instance_lines_of(s: Seq<StatusInstance>) -> Seq<char>
    decreases s.len(),
{
    if s.len() == 0 {
        Seq::empty()
    } else {
        instance_lines_of(s.drop_last()) + full_instance_line_of(s.last())
    }
}

fn push_instance_lines(out: &mut String, s: &Vec<StatusInstance>)
    ensures
        final(out)@ == old(out)@ + instance_lines_of(s@),
{
    let ghost before = out@;
    let mut i: usize = 0;
    assert(s@.take(0) =~= Seq::empty());
    assert(before + instance_lines_of(s@.take(0)) =~= before);
    while i < s.len()
        invariant
            i <= s@.len(),
            out@ == before + instance_lines_of(s@.take(i as int)),
        decreases s@.len() - i,
    {
        assert(s@.take(i + 1).drop_last() =~= s@.take(i as int));
        out.append(full_instance_line(&s[i]).as_str());
        i += 1;
        assert(out@ =~= before + instance_lines_of(s@.take(i as int)));
    }
    assert(s@.take(i as int) =~= s@);
}

/// How the status is shown.
#[derive(Debug, Clone, Copy, PartialEq, Eq, Structural)]
pub enum StatusMode {
    /// As a live screen.
    Live,
    /// Once, as JSON.
    Json,
    /// Once, as text.
    Text,
}

/// Decides how the status is shown. A live screen needs a terminal; without one, text takes
/// its place.
pub fn status_mode(watch: bool, json: bool, terminal: bool) -> (r: StatusMode)
    ensures
        r == (if watch && terminal {
            StatusMode::Live
        } else if !watch && json {
            StatusMode::Json
        } else {
            StatusMode::Text
        }),
{
    if watch && terminal {
        StatusMode::Live
    } else if !watch && json {
        StatusMode::Json
    } else {
        StatusMode::Text
    }
}

/// The lines about apps.
pub open spec fn app_lines_of(s: Seq<StatusAppView>) -> Seq<char>
    decreases s.len(),
{
    if s.len() == 0 {
        Seq::empty()
    } else {
        app_lines_of(s.drop_last()) + app_line_of(s.last()) + "\n"@ + instance_lines_of(s.last().instances)
    }
}

/// What is printed as the status of apps.
pub open spec fn status_text(s: Seq<StatusAppView>) -> Seq<char> {
    if s.len() == 0 {
        "No apps registered.\n"@
    } else {
        app_lines_of(s)
    }
}

/// Writes the status of apps for the user.
pub fn cmd_status(snapshot: &StatusSnapshot) -> (r: String)
    ensures
        r@ == status_text(snapshot@.apps),
{
    if snapshot.apps.len() == 0 {
        return "No apps registered.\n".to_owned();
    }
    let ghost all = snapshot@.apps;
    let mut out = String::new();
    let mut i: usize = 0;
    assert(all.take(0) =~= Seq::empty());
    while i < snapshot.apps.len()
        invariant
            i <= snapshot.apps@.len(),
            all == snapshot@.apps,
            out@ == app_lines_of(all.take(i as int)),
        decreases snapshot.apps@.len() - i,
    {
        assert(all.take(i + 1).drop_last() =~= all.take(i as int));
        assert(all.take(i + 1).last() == snapshot.apps@[i as int]@);
        let app = &snapshot.apps[i];
        out.append(app_line(app).as_str());
        out.append("\n");
        push_instance_lines(&mut out, &app.instances);
        i += 1;
    }
    assert(all.take(i as int) =~= all);
    out
}

/// The status lists each app with its instances, and says of each instance what the runtime
/// knows of it: its restarts and its last exit as they are, its process and start where it
/// has them, and for how long it has run where it runs.
pub proof fn status_tells_what_is_known(
    apps: Seq<AppView>,
    runtime: Runtime,
    live: Seq<i32>,
    now: u64,
    i: int,
    k: usize,
)
    requires
        0 <= i < apps.len(),
        k < apps[i].instances,
        runtime.map().dom().contains(apps[i].name),
        model::pairs_map(runtime.map()[apps[i].name]).dom().contains(k),
    ensures
        ({
            let r = app_statuses(apps, runtime, live, now)[i].instances[k as int];
            let e = model::pairs_map(runtime.map()[apps[i].name])[k];
            &&& r.index == k
            &&& r.restarts == e.restarts
            &&& r.last_exit_at == e.last_exit_at
            &&& r.last_exit_code == e.last_exit_code
            &&& r.last_exit_signal == e.last_exit_signal
            &&& e.pid > 0 ==> r.pid == Some(e.pid)
            &&& e.pid <= 0 ==> r.pid is None
            &&& e.started_at > 0 ==> r.started_at == Some(e.started_at)
            &&& e.started_at == 0 ==> r.started_at is None
            &&& r.alive <==> e.pid > 0 && live.contains(e.pid)
            &&& r.alive && 0 < e.started_at <= now ==> (r.uptime_secs matches Some(u) && e.started_at + u
                == now)
            &&& !(r.alive && 0 < e.started_at <= now) ==> r.uptime_secs is None
        }),
{
}

/// An instance of which nothing is known is listed as one that was never started.
pub proof fn status_lists_the_unknown(
    apps: Seq<AppView>,
    runtime: Runtime,
    live: Seq<i32>,
    now: u64,
    i: int,
    k: usize,
)
    requires
        0 <= i < apps.len(),
        k < apps[i].instances,
        runtime.map().dom().contains(apps[i].name) ==> !model::pairs_map(
            runtime.map()[apps[i].name],
        ).dom().contains(k),
    ensures
        ({
            let r = app_statuses(apps, runtime, live, now)[i].instances[k as int];
            &&& r.index == k && r.pid is None && !r.alive && r.started_at is None && r.uptime_secs is None
            &&& r.restarts == 0 && r.last_exit_at is None
            &&& r.last_exit_code is None && r.last_exit_signal is None
        }),
{
}

/// The status lists every app, in order, as it is registered, with as many instances as it
/// asks for.
pub proof fn status_lists_every_app(
    apps: Seq<AppView>,
    runtime: Runtime,
    live: Seq<i32>,
    now: u64,
    i: int,
)
    requires
        0 <= i < apps.len(),
    ensures
        app_statuses(apps, runtime, live, now).len() == apps.len(),
        ({
            let r = app_statuses(apps, runtime, live, now)[i];
            &&& r.name == apps[i].name
            &&& r.cmd == apps[i].cmd
            &&& r.args == apps[i].args
            &&& r.paused == apps[i].paused
            &&& r.instances_desired == apps[i].instances
            &&& r.instances.len() == apps[i].instances
            &&& r.running == r.instances.filter(|x: StatusInstance| x.alive).len()
            &&& r.total_restarts == sum_restarts(r.instances)
        }),
{
    let r = app_statuses(apps, runtime, live, now)[i];
    up_are_those_alive(r.instances);
}

proof fn up_are_those_alive(s: Seq<StatusInstance>)
    ensures
        count_up(s) == s.filter(|x: StatusInstance| x.alive).len(),
    decreases s.len(),
{
    reveal(Seq::filter);
    if s.len() > 0 {
        up_are_those_alive(s.drop_last());
    }
}

/// The restarts of instances are added up, each as it is.
pub proof fn restarts_add_up(a: Seq<StatusInstance>, b: Seq<StatusInstance>, x: StatusInstance)
    ensures
        sum_restarts(a + b) == sum_restarts(a) + sum_restarts(b),
        sum_restarts(seq![x]) == x.restarts,
    decreases b.len(),
{
    assert(seq![x].drop_last() =~= Seq::empty());
    assert(seq![x].last() == x);
    assert(sum_restarts(seq![x].drop_last()) == 0);
    if b.len() == 0 {
        assert(a + b =~= a);
    } else {
        assert((a + b).drop_last() =~= a + b.drop_last());
        assert((a + b).last() == b.last());
        restarts_add_up(a, b.drop_last(), x);
    }
}

/// The line about an app says its name, how many of how many instances run, the restarts,
/// whether it is paused, and the command with its arguments.
pub proof fn app_line_says_it_all(a: StatusAppView)
    ensures
        text::occurs(a.name + ": "@, app_line_of(a)),
        text::occurs(": "@ + text::decimal(a.running) + "/"@, app_line_of(a)),
        text::occurs("/"@ + text::decimal(a.instances_desired) + " running  restarts="@, app_line_of(a)),
        text::occurs(" running  restarts="@ + text::decimal(a.total_restarts) + "  "@, app_line_of(a)),
        a.paused ==> text::occurs("  "@ + "paused "@ + "cmd: "@, app_line_of(a)),
        !a.paused ==> text::occurs("  "@ + ""@ + "cmd: "@, app_line_of(a)),
        text::occurs("cmd: "@ + a.cmd + " "@, app_line_of(a)),
        text::occurs(" "@ + text::joined(a.args, " "@), app_line_of(a)),
{
    let paused = if a.paused {
        "paused "@
    } else {
        ""@
    };
    let t0 = a.name;
    let t1 = t0 + ": "@;
    let t2 = t1 + text::decimal(a.running);
    let t3 = t2 + "/"@;
    let t4 = t3 + text::decimal(a.instances_desired);
    let t5 = t4 + " running  restarts="@;
    let t6 = t5 + text::decimal(a.total_restarts);
    let t7 = t6 + "  "@;
    let t8 = t7 + paused;
    let t9 = t8 + "cmd: "@;
    let t10 = t9 + a.cmd;
    let t11 = t10 + " "@;
    let t12 = t11 + text::joined(a.args, " "@);
    text::occurs_between(Seq::empty(), t1, text::decimal(a.running));
    text::occurs_before(t1, t2, "/"@);
    text::occurs_before(t1, t3, text::decimal(a.instances_desired));
    text::occurs_before(t1, t4, " running  restarts="@);
    text::occurs_before(t1, t5, text::decimal(a.total_restarts));
    text::occurs_before(t1, t6, "  "@);
    text::occurs_before(t1, t7, paused);
    text::occurs_before(t1, t8, "cmd: "@);
    text::occurs_before(t1, t9, a.cmd);
    text::occurs_before(t1, t10, " "@);
    text::occurs_before(t1, t11, text::joined(a.args, " "@));
    text::occurs_at_end(t0, ": "@, text::decimal(a.running), "/"@);
    text::occurs_before(": "@ + text::decimal(a.running) + "/"@, t3, text::decimal(a.instances_desired));
    text::occurs_before(": "@ + text::decimal(a.running) + "/"@, t4, " running  restarts="@);
    text::occurs_before(": "@ + text::decimal(a.running) + "/"@, t5, text::decimal(a.total_restarts));
    text::occurs_before(": "@ + text::decimal(a.running) + "/"@, t6, "  "@);
    text::occurs_before(": "@ + text::decimal(a.running) + "/"@, t7, paused);
    text::occurs_before(": "@ + text::decimal(a.running) + "/"@, t8, "cmd: "@);
    text::occurs_before(": "@ + text::decimal(a.running) + "/"@, t9, a.cmd);
    text::occurs_before(": "@ + text::decimal(a.running) + "/"@, t10, " "@);
    text::occurs_before(": "@ + text::decimal(a.running) + "/"@, t11, text::joined(a.args, " "@));
    text::occurs_at_end(t2, "/"@, text::decimal(a.instances_desired), " running  restarts="@);
    text::occurs_before("/"@ + text::decimal(a.instances_desired) + " running  restarts="@, t5, text::decimal(a.total_restarts));
    text::occurs_before("/"@ + text::decimal(a.instances_desired) + " running  restarts="@, t6, "  "@);
    text::occurs_before("/"@ + text::decimal(a.instances_desired) + " running  restarts="@, t7, paused);
    text::occurs_before("/"@ + text::decimal(a.instances_desired) + " running  restarts="@, t8, "cmd: "@);
    text::occurs_before("/"@ + text::decimal(a.instances_desired) + " running  restarts="@, t9, a.cmd);
    text::occurs_before("/"@ + text::decimal(a.instances_desired) + " running  restarts="@, t10, " "@);
    text::occurs_before("/"@ + text::decimal(a.instances_desired) + " running  restarts="@, t11, text::joined(a.args, " "@));
    text::occurs_at_end(t4, " running  restarts="@, text::decimal(a.total_restarts), "  "@);
    text::occurs_before(" running  restarts="@ + text::decimal(a.total_restarts) + "  "@, t7, paused);
    text::occurs_before(" running  restarts="@ + text::decimal(a.total_restarts) + "  "@, t8, "cmd: "@);
    text::occurs_before(" running  restarts="@ + text::decimal(a.total_restarts) + "  "@, t9, a.cmd);
    text::occurs_before(" running  restarts="@ + text::decimal(a.total_restarts) + "  "@, t10, " "@);
    text::occurs_before(" running  restarts="@ + text::decimal(a.total_restarts) + "  "@, t11, text::joined(a.args, " "@));
    text::occurs_at_end(t6, "  "@, paused, "cmd: "@);
    text::occurs_before("  "@ + paused + "cmd: "@, t9, a.cmd);
    text::occurs_before("  "@ + paused + "cmd: "@, t10, " "@);
    text::occurs_before("  "@ + paused + "cmd: "@, t11, text::joined(a.args, " "@));
    text::occurs_at_end(t8, "cmd: "@, a.cmd, " "@);
    text::occurs_before("cmd: "@ + a.cmd + " "@, t11, text::joined(a.args, " "@));
    text::occurs_at_end(t10, " "@, text::joined(a.args, " "@), Seq::empty());
    assert(app_line_of(a) == t12);
}

/// The line about an instance says its index, its process, whether it is up, for how long, and
/// its restarts.
pub proof fn instance_line_says_it_all(i: StatusInstance)
    ensures
        text::occurs("["@ + text::decimal(i.index as nat) + "] pid="@, instance_line_of(i)),
        i.pid matches Some(pid) ==> text::occurs(
            "] pid="@ + text::padded(text::integer(pid as int), 6) + " "@,
            instance_line_of(i),
        ),
        i.pid is None ==> text::occurs(
            "] pid="@ + text::padded(text::integer(0), 6) + " "@,
            instance_line_of(i),
        ),
        i.alive ==> text::occurs(" "@ + text::padded("up"@, 4) + " uptime="@, instance_line_of(i)),
        !i.alive ==> text::occurs(" "@ + text::padded("down"@, 4) + " uptime="@, instance_line_of(i)),
        i.uptime_secs matches Some(u) ==> text::occurs(
            " uptime="@ + text::padded(text::decimal(u as nat) + "s"@, 6) + " restarts="@,
            instance_line_of(i),
        ),
        i.uptime_secs is None ==> text::occurs(
            " uptime="@ + text::padded("-"@, 6) + " restarts="@,
            instance_line_of(i),
        ),
        text::occurs(
            " restarts="@ + text::padded(text::decimal(i.restarts as nat), 3),
            instance_line_of(i),
        ),
{
    let pid = text::padded(
        text::integer(
            if i.pid is Some {
                i.pid->0 as int
            } else {
                0
            },
        ),
        6,
    );
    let state = text::padded(
        if i.alive {
            "up"@
        } else {
            "down"@
        },
        4,
    );
    let uptime = text::padded(
        match i.uptime_secs {
            Some(u) => text::decimal(u as nat) + "s"@,
            None => "-"@,
        },
        6,
    );
    let restarts = text::padded(text::decimal(i.restarts as nat), 3);
    let t0 = "["@;
    let t1 = t0 + text::decimal(i.index as nat);
    let t2 = t1 + "] pid="@;
    let t3 = t2 + pid;
    let t4 = t3 + " "@;
    let t5 = t4 + state;
    let t6 = t5 + " uptime="@;
    let t7 = t6 + uptime;
    let t8 = t7 + " restarts="@;
    let t9 = t8 + restarts;
    text::occurs_between(Seq::empty(), t2, pid);
    text::occurs_before(t2, t3, " "@);
    text::occurs_before(t2, t4, state);
    text::occurs_before(t2, t5, " uptime="@);
    text::occurs_before(t2, t6, uptime);
    text::occurs_before(t2, t7, " restarts="@);
    text::occurs_before(t2, t8, restarts);
    text::occurs_at_end(t1, "] pid="@, pid, " "@);
    text::occurs_before("] pid="@ + pid + " "@, t4, state);
    text::occurs_before("] pid="@ + pid + " "@, t5, " uptime="@);
    text::occurs_before("] pid="@ + pid + " "@, t6, uptime);
    text::occurs_before("] pid="@ + pid + " "@, t7, " restarts="@);
    text::occurs_before("] pid="@ + pid + " "@, t8, restarts);
    text::occurs_at_end(t3, " "@, state, " uptime="@);
    text::occurs_before(" "@ + state + " uptime="@, t6, uptime);
    text::occurs_before(" "@ + state + " uptime="@, t7, " restarts="@);
    text::occurs_before(" "@ + state + " uptime="@, t8, restarts);
    text::occurs_at_end(t5, " uptime="@, uptime, " restarts="@);
    text::occurs_before(" uptime="@ + uptime + " restarts="@, t8, restarts);
    text::occurs_at_end(t7, " restarts="@, restarts, Seq::empty());
    assert(instance_line_of(i) == t9);
}

/// What is said of the last exit is when it was, with which code and by which signal, as far
/// as each is known.
pub proof fn last_exit_says_it_all(i: StatusInstance)
    ensures
        i.last_exit_at matches Some(at) ==> text::occurs(
            " last_exit_at="@ + text::integer(at as int) + " code="@,
            last_exit_of(i),
        ),
        i.last_exit_at is None ==> text::occurs(" last_exit_at="@ + "-"@ + " code="@, last_exit_of(i)),
        i.last_exit_code matches Some(code) ==> text::occurs(
            " code="@ + text::integer(code as int) + " sig="@,
            last_exit_of(i),
        ),
        i.last_exit_code is None ==> text::occurs(" code="@ + "-"@ + " sig="@, last_exit_of(i)),
        i.last_exit_signal matches Some(sig) ==> text::occurs(
            " sig="@ + text::integer(sig as int),
            last_exit_of(i),
        ),
        i.last_exit_signal is None ==> text::occurs(" sig="@ + "-"@, last_exit_of(i)),
{
    let at = number_or_dash(opt_u64(i.last_exit_at));
    let code = number_or_dash(opt_i32(i.last_exit_code));
    let sig = number_or_dash(opt_i32(i.last_exit_signal));
    let t0 = " last_exit_at="@;
    let t1 = t0 + at;
    let t2 = t1 + " code="@;
    let t3 = t2 + code;
    let t4 = t3 + " sig="@;
    let t5 = t4 + sig;
    text::occurs_between(Seq::empty(), t2, code);
    text::occurs_before(t2, t3, " sig="@);
    text::occurs_before(t2, t4, sig);
    text::occurs_at_end(t1, " code="@, code, " sig="@);
    text::occurs_before(" code="@ + code + " sig="@, t4, sig);
    text::occurs_at_end(t3, " sig="@, sig, Seq::empty());
    assert(last_exit_of(i) == t5);
}

/// The lines about instances are those about each of them, one after another.
pub proof fn every_instance_has_its_line(a: Seq<StatusInstance>, b: Seq<StatusInstance>, i: StatusInstance)
    ensures
        instance_lines_of(a + b) == instance_lines_of(a) + instance_lines_of(b),
        instance_lines_of(seq![i]) == "  "@ + instance_line_of(i) + last_exit_of(i) + "\n"@,
    decreases b.len(),
{
    let one = seq![i];
    assert(one.drop_last() =~= Seq::empty());
    assert(one.last() == i);
    assert(instance_lines_of(one.drop_last()) =~= Seq::<char>::empty());
    assert(instance_lines_of(one) =~= full_instance_line_of(i));
    if b.len() == 0 {
        assert(a + b =~= a);
        assert(instance_lines_of(a) + instance_lines_of(b) =~= instance_lines_of(a));
    } else {
        assert((a + b).drop_last() =~= a + b.drop_last());
        assert((a + b).last() == b.last());
        every_instance_has_its_line(a, b.drop_last(), i);
        let line = full_instance_line_of(b.last());
        text::joined_either_way(instance_lines_of(a), instance_lines_of(b.drop_last()), line);
    }
}

/// The status as text has the line of each app and the lines of its instances, one app after
/// another; without apps it says so.
pub proof fn every_app_has_its_lines(a: Seq<StatusAppView>, b: Seq<StatusAppView>, app: StatusAppView)
    ensures
        a.len() > 0 && b.len() > 0 ==> status_text(a + b) == status_text(a) + status_text(b),
        status_text(seq![app]) == app_line_of(app) + "\n"@ + instance_lines_of(app.instances),
        status_text(Seq::empty()) == "No apps registered.\n"@,
{
    let one = seq![app];
    assert(one.drop_last() =~= Seq::empty());
    assert(one.last() == app);
    assert(app_lines_of(one.drop_last()) =~= Seq::<char>::empty());
    assert(app_lines_of(one) =~= app_line_of(app) + "\n"@ + instance_lines_of(app.instances));
    app_lines_add(a, b);
}

proof fn app_lines_add(a: Seq<StatusAppView>, b: Seq<StatusAppView>)
    ensures
        app_lines_of(a + b) == app_lines_of(a) + app_lines_of(b),
    decreases b.len(),
{
    if b.len() == 0 {
        assert(a + b =~= a);
        assert(app_lines_of(a) + app_lines_of(b) =~= app_lines_of(a));
    } else {
        let line = app_line_of(b.last());
        let more = instance_lines_of(b.last().instances);
        assert((a + b).drop_last() =~= a + b.drop_last());
        assert((a + b).last() == b.last());
        app_lines_add(a, b.drop_last());
        let x = app_lines_of(a);
        let y = app_lines_of(b.drop_last());
        text::joined_either_way(x, y, line);
        text::joined_either_way(x, y + line, "\n"@);
        text::joined_either_way(x, y + line + "\n"@, more);
    }
}

/// What the status of an app says is all of its fields, and a snapshot says each app, in
/// order.
pub proof fn status_says_all_of_its_fields(a: StatusApp, s: StatusSnapshot, i: int)
    ensures
        a@.name == a.name@,
        a@.cmd == a.cmd@,
        a@.args == text::texts(a.args@),
        a@.instances_desired == a.instances_desired,
        a@.running == a.running,
        a@.total_restarts == a.total_restarts,
        a@.paused == a.paused,
        a@.instances == a.instances@,
        s@.generated_at == s.generated_at,
        s@.apps.len() == s.apps@.len(),
        0 <= i < s.apps@.len() ==> s@.apps[i] == s.apps@[i]@,
{
}

} // verus!
