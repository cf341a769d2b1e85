//! What one pass of the daemon over the registered apps does.
use vstd::prelude::*;
use vstd::string::*;

use crate::env_file;
use crate::model;
use crate::model::{AppConfig, AppRuntime, AppView, InstanceRuntime, Runtime, RuntimeView};
use crate::registry::is_registered;
use crate::text;
use crate::text::{copy_texts, write_decimal};
use crate::unix::ExitInfo;

verus! {

/// The processes among instances, in order.
pub open spec fn live_pids(s: Seq<(usize, InstanceRuntime)>) -> Seq<i32>
    decreases s.len(),
{
    if s.len() == 0 {
        Seq::empty()
    } else {
        let before = live_pids(s.drop_last());
        if s.last().1.pid > 0 {
            before.push(s.last().1.pid)
        } else {
            before
        }
    }
}

/// The processes of all apps, in order.
pub open spec fn all_live_pids(s: RuntimeView) -> Seq<i32>
    decreases s.len(),
{
    if s.len() == 0 {
        Seq::empty()
    } else {
        all_live_pids(s.drop_last()) + live_pids(s.last().1)
    }
}

/// Collects the processes among instances.
pub fn collect_pids(rt: &AppRuntime) -> (r: Vec<i32>)
    ensures
        r@ == live_pids(rt@),
{
    let mut r: Vec<i32> = Vec::new();
    let mut i: usize = 0;
    while i < rt.instances.len()
        invariant
            i <= rt@.len(),
            r@ == live_pids(rt@.take(i as int)),
        decreases rt@.len() - i,
    {
        assert(rt@.take(i + 1).drop_last() =~= rt@.take(i as int));
        let pid: i32 = rt.instances[i].1.pid;
        if pid > 0 {
            r.push(pid);
        }
        i += 1;
    }
    assert(rt@.take(i as int) =~= rt@);
    r
}

/// The entries of apps that are registered, or of those that are not.
pub open spec fn registered(apps: Seq<AppView>, yes: bool) -> spec_fn(
    (Seq<char>, Seq<(usize, InstanceRuntime)>),
) -> bool {
    |e: (Seq<char>, Seq<(usize, InstanceRuntime)>)| model::has_name(apps, e.0) == yes
}

/// Forgets the apps that are no longer registered, and hands out their processes, which
/// are to be ended.
pub fn prune_apps(apps: &Vec<AppConfig>, runtime: &mut Runtime) -> (r: Vec<i32>)
    requires
        old(runtime).wf(),
    ensures
        final(runtime).wf(),
        final(runtime)@ == old(runtime)@.filter(registered(model::app_views(apps@), true)),
        r@ == all_live_pids(old(runtime)@.filter(registered(model::app_views(apps@), false))),
{
    let ghost before = runtime@;
    let ghost views = model::app_views(apps@);
    let ghost yes = registered(views, true);
    let ghost no = registered(views, false);
    let mut all: Vec<(String, AppRuntime)> = Vec::new();
    std::mem::swap(&mut all, &mut runtime.apps);
    let mut kept: Vec<(String, AppRuntime)> = Vec::new();
    let mut pids: Vec<i32> = Vec::new();
    proof {
        reveal(Seq::filter);
        assert(before.take(0) =~= Seq::empty());
    }
    for entry in it: all
        invariant
            views == model::app_views(apps@),
            yes == registered(views, true),
            no == registered(views, false),
            before == model::entry_views(it.seq()),
            model::entry_views(kept@) == before.take(it.index() as int).filter(yes),
            pids@ == all_live_pids(before.take(it.index() as int).filter(no)),
    {
        let ghost done = it.index() as int;
        let ghost kept_before = kept@;
        let ghost view = (entry.0@, entry.1@);
        proof {
            reveal(Seq::filter);
            assert(before.take(done + 1).drop_last() =~= before.take(done));
            assert(before.take(done + 1).last() == view);
        }
        if is_registered(apps, entry.0.as_str()) {
            kept.push(entry);
            assert(model::entry_views(kept@) =~= model::entry_views(kept_before).push(view));
        } else {
            let mut more = collect_pids(&entry.1);
            pids.append(&mut more);
            proof {
                let f = before.take(done + 1).filter(no);
                assert(f.drop_last() =~= before.take(done).filter(no));
                assert(f.last() == view);
            }
        }
    }
    assert(before.take(before.len() as int) =~= before);
    runtime.apps = kept;
    proof {
        filter_keeps_order(before, yes);
    }
    pids
}

/// Leaving entries out keeps the order of the rest.
proof fn filter_keeps_order(s: RuntimeView, f: spec_fn((Seq<char>, Seq<(usize, InstanceRuntime)>)) -> bool)
    requires
        model::runtime_wf(s),
    ensures
        model::runtime_wf(s.filter(f)),
        forall|i: int| 0 <= i < s.filter(f).len() ==> s.contains(#[trigger] s.filter(f)[i]),
    decreases s.len(),
{
    reveal(Seq::filter);
    if s.len() > 0 {
        let t = s.drop_last();
        assert forall|i: int, j: int|
            0 <= i < j < t.len() implies text::text_lt((#[trigger] t[i]).0, (#[trigger] t[j]).0) by {
            assert(t[i] == s[i] && t[j] == s[j]);
        }
        assert forall|i: int| 0 <= i < t.len() implies model::ascending((#[trigger] t[i]).1) by {
            assert(t[i] == s[i]);
        }
        filter_keeps_order(t, f);
        let r = s.filter(f);
        let q = t.filter(f);
        assert forall|i: int| 0 <= i < r.len() implies s.contains(#[trigger] r[i]) by {
            if i < q.len() {
                assert(r[i] == q[i]);
                assert(t.contains(q[i]));
                let k = choose|k: int| 0 <= k < t.len() && t[k] == q[i];
                assert(s[k] == r[i]);
            } else {
                assert(s[s.len() - 1] == r[i]);
            }
        }
        assert forall|i: int, j: int|
            0 <= i < j < r.len() implies text::text_lt((#[trigger] r[i]).0, (#[trigger] r[j]).0) by {
            if j < q.len() {
                assert(r[i] == q[i] && r[j] == q[j]);
            } else {
                assert(r[i] == q[i]);
                assert(t.contains(q[i]));
                let k = choose|k: int| 0 <= k < t.len() && t[k] == q[i];
                assert(s[k] == r[i]);
                assert(r[j] == s.last());
                assert(text::text_lt(s[k].0, s[s.len() - 1].0));
            }
        }
        assert forall|i: int| 0 <= i < r.len() implies model::ascending((#[trigger] r[i]).1) by {
            if i < q.len() {
                assert(r[i] == q[i]);
            } else {
                assert(r[i] == s[s.len() - 1]);
            }
        }
    }
}

/// After forgetting the apps that are no longer registered, each app that is left is
/// registered, and each that was registered is left as it was.
pub proof fn pruning_keeps_the_registered(s: RuntimeView, apps: Seq<AppView>)
    ensures
        forall|i: int|
            0 <= i < s.filter(registered(apps, true)).len() ==> model::has_name(
                apps,
                (#[trigger] s.filter(registered(apps, true))[i]).0,
            ),
        forall|i: int|
            0 <= i < s.len() && model::has_name(apps, (#[trigger] s[i]).0) ==> s.filter(
                registered(apps, true),
            ).contains(s[i]),
{
    let f = registered(apps, true);
    assert forall|i: int|
        0 <= i < s.filter(f).len() implies model::has_name(apps, (#[trigger] s.filter(f)[i]).0) by {
        assert(f(s.filter(f)[i]));
    }
    assert forall|i: int|
        0 <= i < s.len() && model::has_name(apps, (#[trigger] s[i]).0) implies s.filter(f).contains(
        s[i],
    ) by {
        assert(f(s[i]));
    }
}

/// What was found out about a process.
#[derive(Debug, Clone, Copy, PartialEq, Eq, Structural)]
pub struct Observation {
    /// How it ended, where that can be told.
    pub exit: Option<ExitInfo>,
    pub alive: bool,
    /// When it was looked at, in Unix seconds.
    pub at: u64,
}

/// The instances that should have a process, each with the process that it had: those
/// with an index below `n`.
pub open spec fn probed(s: Seq<(usize, InstanceRuntime)>, n: nat) -> Seq<(usize, i32)>
    decreases s.len(),
{
    if s.len() == 0 {
        Seq::empty()
    } else {
        let before = probed(s.drop_last(), n);
        if s.last().0 < n && s.last().1.pid > 0 {
            before.push((s.last().0, s.last().1.pid))
        } else {
            before
        }
    }
}

/// Lists the processes to look at.
pub fn to_probe(rt: &AppRuntime, app: &AppConfig) -> (r: Vec<(usize, i32)>)
    ensures
        r@ == probed(rt@, app@.instances),
{
    let mut r: Vec<(usize, i32)> = Vec::new();
    let mut i: usize = 0;
    while i < rt.instances.len()
        invariant
            i <= rt@.len(),
            r@ == probed(rt@.take(i as int), app@.instances),
        decreases rt@.len() - i,
    {
        assert(rt@.take(i + 1).drop_last() =~= rt@.take(i as int));
        let (idx, inst) = rt.instances[i];
        if idx < app.instances && inst.pid > 0 {
            r.push((idx, inst.pid));
        }
        i += 1;
    }
    assert(rt@.take(i as int) =~= rt@);
    r
}

/// What is known of an instance once its process was looked at. A process that ended, or
/// that is gone, leaves the instance without one.
pub open spec fn observed(inst: InstanceRuntime, o: Observation) -> InstanceRuntime {
    if o.exit is Some {
        InstanceRuntime {
            pid: 0,
            last_exit_at: Some(o.at),
            last_exit_code: o.exit->0.code,
            last_exit_signal: o.exit->0.signal,
            ..inst
        }
    } else if !o.alive {
        InstanceRuntime {
            pid: 0,
            last_exit_at: Some(o.at),
            last_exit_code: None,
            last_exit_signal: None,
            ..inst
        }
    } else {
        inst
    }
}

fn observe(inst: InstanceRuntime, o: Observation) -> (r: InstanceRuntime)
    ensures
        r == observed(inst, o),
{
    if let Some(exit) = o.exit {
        InstanceRuntime {
            pid: 0,
            last_exit_at: Some(o.at),
            last_exit_code: exit.code,
            last_exit_signal: exit.signal,
            ..inst
        }
    } else if !o.alive {
        InstanceRuntime {
            pid: 0,
            last_exit_at: Some(o.at),
            last_exit_code: None,
            last_exit_signal: None,
            ..inst
        }
    } else {
        inst
    }
}

/// The instances of an app once their processes were looked at, without those whose index
/// is `n` or more. The observations are those of `probed`, in its order.
pub open spec fn checked(
    s: Seq<(usize, InstanceRuntime)>,
    n: nat,
    seen: Seq<Observation>,
) -> Seq<(usize, InstanceRuntime)>
    decreases s.len(),
{
    if s.len() == 0 {
        Seq::empty()
    } else {
        let (idx, inst) = s.last();
        if idx >= n {
            checked(s.drop_last(), n, seen)
        } else if inst.pid > 0 {
            checked(s.drop_last(), n, seen.drop_last()).push((idx, observed(inst, seen.last())))
        } else {
            checked(s.drop_last(), n, seen).push((idx, inst))
        }
    }
}

/// The instances whose index is `n` or more.
pub open spec fn excess(s: Seq<(usize, InstanceRuntime)>, n: nat) -> Seq<(usize, InstanceRuntime)> {
    s.filter(|e: (usize, InstanceRuntime)| e.0 >= n)
}

/// Takes in what was found out about the processes of an app, and forgets the instances
/// that are too many. Hands out the processes of those, which are to be ended.
pub fn check_app(rt: &mut AppRuntime, app: &AppConfig, seen: &Vec<Observation>) -> (r: Vec<i32>)
    requires
        old(rt).wf(),
        seen@.len() == probed(old(rt)@, app@.instances).len(),
    ensures
        final(rt).wf(),
        final(rt)@ == checked(old(rt)@, app@.instances, seen@),
        r@ == live_pids(excess(old(rt)@, app@.instances)),
{
    let ghost s = rt@;
    let ghost n = app@.instances;
    let ghost f = |e: (usize, InstanceRuntime)| e.0 >= n;
    let mut kept: Vec<(usize, InstanceRuntime)> = Vec::new();
    let mut pids: Vec<i32> = Vec::new();
    let mut i: usize = 0;
    let mut j: usize = 0;
    proof {
        reveal(Seq::filter);
        assert(s.take(0).filter(f) =~= Seq::empty());
        assert(s.take(s.len() as int) =~= s);
    }
    while i < rt.instances.len()
        invariant
            rt@ == s,
            model::ascending(s),
            n == app@.instances,
            f == (|e: (usize, InstanceRuntime)| e.0 >= n),
            i <= s.len(),
            j == probed(s.take(i as int), n).len(),
            seen@.len() == probed(s, n).len(),
            kept@ == checked(s.take(i as int), n, seen@.take(j as int)),
            model::ascending(kept@),
            kept@.len() > 0 ==> i > 0 && kept@.last().0 <= s[i - 1].0,
            pids@ == live_pids(s.take(i as int).filter(f)),
        decreases s.len() - i,
    {
        let ghost part = s.take(i + 1);
        let ghost kept_before = kept@;
        proof {
            reveal(Seq::filter);
            assert(part.drop_last() =~= s.take(i as int));
            probed_grows(s, n, i + 1);
        }
        let (idx, inst) = rt.instances[i];
        if idx >= app.instances {
            if inst.pid > 0 {
                pids.push(inst.pid);
            }
            proof {
                assert(part.filter(f) == s.take(i as int).filter(f).push(part.last()));
                assert(part.filter(f).drop_last() =~= s.take(i as int).filter(f));
            }
        } else if inst.pid > 0 {
            assert(j < seen.len());
            kept.push((idx, observe(inst, seen[j])));
            j += 1;
            assert(seen@.take(j as int).drop_last() =~= seen@.take(j - 1));
        } else {
            kept.push((idx, inst));
        }
        proof {
            if kept@.len() > kept_before.len() && kept_before.len() > 0 {
                assert(s[i - 1].0 < s[i as int].0);
                assert forall|a: int, b: int|
                    0 <= a < b < kept@.len() implies (#[trigger] kept@[a]).0 < (
                #[trigger] kept@[b]).0 by {
                    if b == kept_before.len() {
                        assert(kept@[a] == kept_before[a]);
                        if a < kept_before.len() - 1 {
                            assert(kept_before[a].0 < kept_before[kept_before.len() - 1].0);
                        }
                    }
                }
            }
            if i > 0 {
                assert(s[i - 1].0 < s[i as int].0);
            }
        }
        i += 1;
    }
    assert(s.take(i as int) =~= s);
    assert(seen@.take(j as int) =~= seen@);
    rt.instances = kept;
    pids
}

proof fn probed_grows(s: Seq<(usize, InstanceRuntime)>, n: nat, k: int)
    requires
        0 <= k <= s.len(),
    ensures
        probed(s.take(k), n).len() <= probed(s, n).len(),
    decreases s.len(),
{
    if k == s.len() {
        assert(s.take(k) =~= s);
    } else {
        assert(s.drop_last().take(k) =~= s.take(k));
        probed_grows(s.drop_last(), n, k);
    }
}

/// How many instances of an app should run: none while it is paused.
pub open spec fn wanted(app: AppView) -> nat {
    if app.paused {
        0
    } else {
        app.instances
    }
}

/// The instances with a place for each index below `n`.
pub open spec fn filled(m: Map<usize, InstanceRuntime>, n: nat) -> Map<usize, InstanceRuntime> {
    Map::new(
        |k: usize| m.dom().contains(k) || k < n,
        |k: usize| if m.dom().contains(k) {
            m[k]
        } else {
            model::fresh_instance()
        },
    )
}

/// The indices below `n` that have no process, going up.
pub open spec fn idle(m: Map<usize, InstanceRuntime>, n: nat) -> Seq<usize>
    decreases n,
{
    if n == 0 {
        Seq::empty()
    } else {
        let before = idle(m, (n - 1) as nat);
        if m[(n - 1) as usize].pid == 0 {
            before.push((n - 1) as usize)
        } else {
            before
        }
    }
}

proof fn idle_agrees(a: Map<usize, InstanceRuntime>, b: Map<usize, InstanceRuntime>, n: nat)
    requires
        n <= usize::MAX,
        forall|k: usize| k < n ==> #[trigger] a[k] == b[k],
    ensures
        idle(a, n) == idle(b, n),
    decreases n,
{
    if n > 0 {
        assert(a[(n - 1) as usize] == b[(n - 1) as usize]);
        idle_agrees(a, b, (n - 1) as nat);
    }
}

/// Makes a place for each instance that should run, and lists those that have no process,
/// which are to be started.
pub fn to_launch(rt: &mut AppRuntime, app: &AppConfig) -> (r: Vec<usize>)
    requires
        old(rt).wf(),
    ensures
        final(rt).wf(),
        final(rt).map() == filled(old(rt).map(), wanted(app@)),
        r@ == idle(final(rt).map(), wanted(app@)),
{
    let desired: usize = if app.paused {
        0
    } else {
        app.instances
    };
    let ghost m = rt.map();
    let mut r: Vec<usize> = Vec::new();
    let mut idx: usize = 0;
    assert(rt.map() =~= filled(m, 0));
    while idx < desired
        invariant
            rt.wf(),
            idx <= desired,
            rt.map() == filled(m, idx as nat),
            r@ == idle(rt.map(), idx as nat),
        decreases desired - idx,
    {
        let ghost before = rt.map();
        let inst = match rt.get(idx) {
            Some(inst) => inst,
            None => {
                let inst = InstanceRuntime::default();
                rt.insert(idx, inst);
                inst
            },
        };
        proof {
            assert(rt.map() =~= filled(m, (idx + 1) as nat));
            idle_agrees(before, rt.map(), idx as nat);
        }
        if inst.pid == 0 {
            r.push(idx);
        }
        idx += 1;
    }
    r
}

/// A process that was started.
#[derive(Debug, Clone, Copy, PartialEq, Eq, Structural)]
pub struct Launched {
    pub pid: i32,
    /// When it was started, in Unix seconds.
    pub at: u64,
}

/// What is known of an instance whose process was started. Every start but the first is
/// a restart.
pub open spec fn relaunched(inst: InstanceRuntime, l: Launched) -> InstanceRuntime {
    InstanceRuntime {
        pid: l.pid,
        started_at: l.at,
        restarts: if inst.started_at > 0 {
            (inst.restarts + 1) as u64
        } else {
            inst.restarts
        },
        ..inst
    }
}

/// The instances once those in `targets` were started, each with what came of it: a
/// process, or none where it could not be started.
pub open spec fn launched(
    m: Map<usize, InstanceRuntime>,
    targets: Seq<usize>,
    results: Seq<Option<Launched>>,
) -> Map<usize, InstanceRuntime>
    decreases targets.len(),
{
    if targets.len() == 0 {
        m
    } else {
        let before = launched(m, targets.drop_last(), results.drop_last());
        match results.last() {
            Some(l) => before.insert(targets.last(), relaunched(m[targets.last()], l)),
            None => before,
        }
    }
}

/// The restarts can be counted on.
pub open spec fn restarts_can_grow(
    m: Map<usize, InstanceRuntime>,
    targets: Seq<usize>,
    results: Seq<Option<Launched>>,
) -> bool {
    forall|k: int|
        0 <= k < targets.len() && results[k] is Some && m[#[trigger] targets[k]].started_at > 0 ==> m[targets[k]].restarts
            < u64::MAX
}

/// Whether the restarts can be counted on.
pub fn restarts_fit(rt: &AppRuntime, targets: &Vec<usize>, results: &Vec<Option<Launched>>) -> (r: bool)
    requires
        rt.wf(),
        targets@.len() == results@.len(),
        forall|k: int| 0 <= k < targets@.len() ==> rt.map().dom().contains(#[trigger] targets@[k]),
    ensures
        r == restarts_can_grow(rt.map(), targets@, results@),
{
    let mut i: usize = 0;
    while i < targets.len()
        invariant
            rt.wf(),
            i <= targets@.len(),
            targets@.len() == results@.len(),
            forall|k: int|
                0 <= k < targets@.len() ==> rt.map().dom().contains(#[trigger] targets@[k]),
            restarts_can_grow(rt.map(), targets@.take(i as int), results@.take(i as int)),
        decreases targets@.len() - i,
    {
        if results[i].is_some() {
            if let Some(inst) = rt.get(targets[i]) {
                if inst.started_at > 0 && inst.restarts == u64::MAX {
                    return false;
                }
            }
        }
        let ghost t = targets@.take(i + 1);
        let ghost q = results@.take(i + 1);
        assert forall|k: int|
            0 <= k < t.len() && q[k] is Some && rt.map()[#[trigger] t[k]].started_at > 0 implies rt.map()[t[k]].restarts
            < u64::MAX by {
            if k < i {
                assert(targets@.take(i as int)[k] == t[k]);
                assert(results@.take(i as int)[k] == q[k]);
            } else {
                assert(t[k] == targets@[i as int]);
                assert(rt.map().dom().contains(targets@[i as int]));
            }
        }
        i += 1;
    }
    assert(targets@.take(i as int) =~= targets@);
    assert(results@.take(i as int) =~= results@);
    true
}

/// Takes in what came of starting instances.
pub fn record_launches(rt: &mut AppRuntime, targets: &Vec<usize>, results: &Vec<Option<Launched>>)
    requires
        old(rt).wf(),
        targets@.len() == results@.len(),
        targets@.no_duplicates(),
        forall|k: int|
            0 <= k < targets@.len() ==> old(rt).map().dom().contains(#[trigger] targets@[k]),
        restarts_can_grow(old(rt).map(), targets@, results@),
    ensures
        final(rt).wf(),
        final(rt).map() == launched(old(rt).map(), targets@, results@),
{
    let ghost m = rt.map();
    let mut i: usize = 0;
    assert(targets@.take(0) =~= Seq::empty());
    while i < targets.len()
        invariant
            rt.wf(),
            i <= targets@.len(),
            targets@.len() == results@.len(),
            targets@.no_duplicates(),
            forall|k: int| 0 <= k < targets@.len() ==> m.dom().contains(#[trigger] targets@[k]),
            restarts_can_grow(m, targets@, results@),
            rt.map() == launched(m, targets@.take(i as int), results@.take(i as int)),
            forall|k: int|
                i <= k < targets@.len() ==> rt.map()[#[trigger] targets@[k]] == m[targets@[k]],
            forall|k: int|
                0 <= k < targets@.len() ==> rt.map().dom().contains(#[trigger] targets@[k]),
        decreases targets@.len() - i,
    {
        proof {
            assert(targets@.take(i + 1).drop_last() =~= targets@.take(i as int));
            assert(results@.take(i + 1).drop_last() =~= results@.take(i as int));
            assert(rt.map().dom().contains(targets@[i as int]));
        }
        let idx: usize = targets[i];
        if let Some(l) = results[i] {
            if let Some(inst) = rt.get(idx) {
                let restarts: u64 = if inst.started_at > 0 {
                    inst.restarts + 1
                } else {
                    inst.restarts
                };
                rt.insert(idx, InstanceRuntime { pid: l.pid, started_at: l.at, restarts, ..inst });
            }
        }
        i += 1;
    }
    assert(targets@.take(i as int) =~= targets@);
    assert(results@.take(i as int) =~= results@);
}

/// The idle indices are below `n`, have no process, go up, and are all of those.
pub proof fn idle_properties(m: Map<usize, InstanceRuntime>, n: nat)
    requires
        n <= usize::MAX,
    ensures
        idle(m, n).no_duplicates(),
        forall|k: int|
            0 <= k < idle(m, n).len() ==> (#[trigger] idle(m, n)[k]) < n && m[idle(m, n)[k]].pid == 0,
        forall|i: usize| i < n && (#[trigger] m[i]).pid == 0 ==> idle(m, n).contains(i),
        forall|j: int, k: int|
            0 <= j < k < idle(m, n).len() ==> (#[trigger] idle(m, n)[j]) < (#[trigger] idle(m, n)[k]),
    decreases n,
{
    if n > 0 {
        let before = idle(m, (n - 1) as nat);
        let all = idle(m, n);
        idle_properties(m, (n - 1) as nat);
        assert forall|i: usize| i < n && (#[trigger] m[i]).pid == 0 implies all.contains(i) by {
            if i < n - 1 {
                let k = choose|k: int| 0 <= k < before.len() && before[k] == i;
                assert(all[k] == i);
            } else {
                assert(all.last() == i);
            }
        }
        assert forall|j: int, k: int|
            0 <= j < k < all.len() implies (#[trigger] all[j]) < (#[trigger] all[k]) by {
            if k < before.len() {
                assert(before[j] < before[k]);
            } else {
                assert(before[j] < n - 1);
            }
        }
        assert forall|k: int|
            0 <= k < all.len() implies (#[trigger] all[k]) < n && m[all[k]].pid == 0 by {
            if k < before.len() {
                assert(before[k] == all[k]);
            }
        }
    }
}

/// What starting does: an instance that was started is as `relaunched` says, and any other
/// is as before.
pub proof fn launched_properties(
    m: Map<usize, InstanceRuntime>,
    targets: Seq<usize>,
    results: Seq<Option<Launched>>,
)
    requires
        targets.len() == results.len(),
        targets.no_duplicates(),
        forall|k: int| 0 <= k < targets.len() ==> m.dom().contains(#[trigger] targets[k]),
    ensures
        launched(m, targets, results).dom() == m.dom(),
        forall|k: int|
            0 <= k < targets.len() ==> launched(m, targets, results)[#[trigger] targets[k]] == (match results[k] {
                Some(l) => relaunched(m[targets[k]], l),
                None => m[targets[k]],
            }),
        forall|i: usize|
            !targets.contains(i) ==> #[trigger] launched(m, targets, results)[i] == m[i],
    decreases targets.len(),
{
    if targets.len() > 0 {
        let t = targets.drop_last();
        let q = results.drop_last();
        assert forall|k: int| 0 <= k < t.len() implies m.dom().contains(#[trigger] t[k]) by {
            assert(t[k] == targets[k]);
        }
        assert(t.no_duplicates()) by {
            assert forall|a: int, b: int|
                0 <= a < t.len() && 0 <= b < t.len() && a != b implies t[a] != t[b] by {
                assert(targets[a] != targets[b]);
            }
        }
        launched_properties(m, t, q);
        let last = targets.len() - 1;
        assert(m.dom().contains(targets[last]));
        assert(launched(m, targets, results).dom() =~= m.dom());
        assert(!t.contains(targets[last])) by {
            if t.contains(targets[last]) {
                let k = choose|k: int| 0 <= k < t.len() && t[k] == targets[last];
                assert(targets[k] != targets[last]);
            }
        }
        assert forall|k: int|
            0 <= k < targets.len() implies launched(m, targets, results)[#[trigger] targets[k]] == (
        match results[k] {
            Some(l) => relaunched(m[targets[k]], l),
            None => m[targets[k]],
        }) by {
            if k < last {
                assert(targets[k] == t[k]);
                assert(results[k] == q[k]);
                assert(targets[k] != targets[last]);
            } else {
                assert(launched(m, t, q)[targets[last]] == m[targets[last]]);
            }
        }
        assert forall|i: usize|
            !targets.contains(i) implies #[trigger] launched(m, targets, results)[i] == m[i] by {
            assert(targets[last] != i);
            if t.contains(i) {
                let k = choose|k: int| 0 <= k < t.len() && t[k] == i;
                assert(targets[k] == i);
            }
            assert(launched(m, t, q)[i] == m[i]);
        }
    }
}

/// A pass keeps an app alive: where each start gives a process, every instance that should
/// run has one afterwards, and what ran already was left alone.
pub proof fn pass_keeps_alive(
    m: Map<usize, InstanceRuntime>,
    n: nat,
    results: Seq<Option<Launched>>,
)
    requires
        n <= usize::MAX,
        results.len() == idle(filled(m, n), n).len(),
        forall|k: int|
            0 <= k < results.len() ==> (#[trigger] results[k]) is Some && results[k]->0.pid != 0,
    ensures
        ({
            let after = launched(filled(m, n), idle(filled(m, n), n), results);
            &&& forall|i: usize| i < n ==> #[trigger] after.dom().contains(i) && after[i].pid != 0
            &&& forall|i: usize|
                m.dom().contains(i) && (#[trigger] m[i]).pid != 0 ==> after.dom().contains(i) && after[i] == m[i]
        }),
{
    let full = filled(m, n);
    let t = idle(full, n);
    idle_properties(full, n);
    launched_properties(full, t, results);
    let after = launched(full, t, results);
    assert forall|i: usize|
        i < n implies #[trigger] after.dom().contains(i) && after[i].pid != 0 by {
        if full[i].pid == 0 {
            let k = choose|k: int| 0 <= k < t.len() && t[k] == i;
            assert(after[t[k]] == relaunched(full[t[k]], results[k]->0));
        } else if t.contains(i) {
            let k = choose|k: int| 0 <= k < t.len() && t[k] == i;
            assert(full[t[k]].pid == 0);
        }
    }
    assert forall|i: usize|
        m.dom().contains(i) && (#[trigger] m[i]).pid != 0 implies after.dom().contains(i) && after[i]
        == m[i] by {
        assert(full[i] == m[i]);
        if t.contains(i) {
            let k = choose|k: int| 0 <= k < t.len() && t[k] == i;
            assert(full[t[k]].pid == 0);
        }
    }
}

/// An instance that could not be started has no process after the pass, so that the next
/// pass tries again.
pub proof fn failed_launch_is_retried(
    m: Map<usize, InstanceRuntime>,
    n: nat,
    results: Seq<Option<Launched>>,
    k: int,
)
    requires
        n <= usize::MAX,
        results.len() == idle(filled(m, n), n).len(),
        0 <= k < results.len(),
        results[k] is None,
    ensures
        ({
            let t = idle(filled(m, n), n);
            let after = launched(filled(m, n), t, results);
            idle(filled(after, n), n).contains(t[k])
        }),
{
    let full = filled(m, n);
    let t = idle(full, n);
    idle_properties(full, n);
    launched_properties(full, t, results);
    let after = launched(full, t, results);
    let again = filled(after, n);
    idle_properties(again, n);
    assert(full.dom().contains(t[k]));
    assert(again[t[k]] == full[t[k]]);
    assert(again[t[k]].pid == 0);
}

/// A process that ended by itself is started again, which counts as one restart; how and
/// when it ended stays known.
pub proof fn crash_counts_one_restart(inst: InstanceRuntime, o: Observation, l: Launched)
    requires
        inst.started_at > 0,
        inst.restarts < u64::MAX,
        o.exit is Some || !o.alive,
    ensures
        observed(inst, o).pid == 0,
        relaunched(observed(inst, o), l).restarts == inst.restarts + 1,
        relaunched(observed(inst, o), l).pid == l.pid,
        relaunched(observed(inst, o), l).started_at == l.at,
        relaunched(observed(inst, o), l).last_exit_at == Some(o.at),
        o.exit is Some ==> relaunched(observed(inst, o), l).last_exit_code == o.exit->0.code
            && relaunched(observed(inst, o), l).last_exit_signal == o.exit->0.signal,
{
}

/// The first start of an instance is no restart.
pub proof fn first_start_is_no_restart(l: Launched)
    ensures
        relaunched(model::fresh_instance(), l).restarts == 0,
{
}

/// After a check no instance is too many.
pub proof fn check_drops_excess(s: Seq<(usize, InstanceRuntime)>, n: nat, seen: Seq<Observation>)
    ensures
        forall|i: int|
            0 <= i < checked(s, n, seen).len() ==> (#[trigger] checked(s, n, seen)[i]).0 < n,
    decreases s.len(),
{
    if s.len() > 0 {
        let (idx, inst) = s.last();
        let shorter = if idx < n && inst.pid > 0 {
            seen.drop_last()
        } else {
            seen
        };
        check_drops_excess(s.drop_last(), n, shorter);
        let c = checked(s, n, seen);
        let b = checked(s.drop_last(), n, shorter);
        assert forall|i: int| 0 <= i < c.len() implies (#[trigger] c[i]).0 < n by {
            if i < b.len() {
                assert(c[i] == b[i]);
            }
        }
    }
}

/// After a whole pass over an app, no instance is known whose index is too high.
pub proof fn pass_leaves_no_excess(
    s: Seq<(usize, InstanceRuntime)>,
    app: AppView,
    seen: Seq<Observation>,
    results: Seq<Option<Launched>>,
)
    requires
        app.instances <= usize::MAX,
        ({
            let m = filled(model::pairs_map(checked(s, app.instances, seen)), wanted(app));
            results.len() == idle(m, wanted(app)).len()
        }),
    ensures
        ({
            let m = filled(model::pairs_map(checked(s, app.instances, seen)), wanted(app));
            let after = launched(m, idle(m, wanted(app)), results);
            forall|i: usize| #[trigger] after.dom().contains(i) ==> i < app.instances
        }),
{
    let c = checked(s, app.instances, seen);
    check_drops_excess(s, app.instances, seen);
    let m = filled(model::pairs_map(c), wanted(app));
    let t = idle(m, wanted(app));
    idle_properties(m, wanted(app));
    launched_properties(m, t, results);
    let after = launched(m, t, results);
    assert forall|i: usize| #[trigger] after.dom().contains(i) implies i < app.instances by {
        assert(m.dom().contains(i));
        if model::pairs_map(c).dom().contains(i) {
            let k = choose|k: int| 0 <= k < c.len() && (#[trigger] c[k]).0 == i;
            assert(c[k].0 < app.instances);
        }
    }
}

/// A paused app is given no processes.
pub proof fn paused_app_starts_nothing(app: AppView, m: Map<usize, InstanceRuntime>)
    requires
        app.paused,
    ensures
        idle(m, wanted(app)).len() == 0,
        filled(m, wanted(app)) == m,
{
    assert(filled(m, 0) =~= m);
}

/// The instances that are known of an app.
pub open spec fn instances_of(
    m: Map<Seq<char>, Seq<(usize, InstanceRuntime)>>,
    name: Seq<char>,
) -> Seq<(usize, InstanceRuntime)> {
    if m.dom().contains(name) {
        m[name]
    } else {
        Seq::empty()
    }
}

/// A pass of the daemon over the registered apps, one after the other.
#[derive(Debug)]
pub struct Pass {
    pub apps: Vec<AppConfig>,
    pub runtime: Runtime,
    /// How many apps the pass is done with.
    pub at: usize,
}

impl Pass {
    /// The app that the pass is at.
    pub open spec fn app(self) -> AppView {
        self.apps@[self.at as int]@
    }

    /// Each app that is known is registered, and each that the pass is done with is known.
    pub open spec fn wf(self) -> bool {
        &&& self.runtime.wf()
        &&& self.at <= self.apps@.len()
        &&& forall|name: Seq<char>| #[trigger]
            self.runtime.map().dom().contains(name) ==> model::has_name(model::app_views(self.apps@), name)
        &&& forall|i: int|
            0 <= i < self.at ==> self.runtime.map().dom().contains((#[trigger] self.apps@[i])@.name)
    }

    /// The instances that are known of the app that the pass is at.
    pub open spec fn instances(self) -> Seq<(usize, InstanceRuntime)> {
        instances_of(self.runtime.map(), self.app().name)
    }

    /// Nothing but the instances of the app that the pass is at is another than before.
    pub open spec fn differs_at_app(self, before: Pass) -> bool {
        &&& self.apps == before.apps
        &&& self.runtime.map().dom() == before.runtime.map().dom().insert(before.app().name)
        &&& forall|name: Seq<char>|
            name != before.app().name && before.runtime.map().dom().contains(name)
                ==> #[trigger] self.runtime.map()[name] == before.runtime.map()[name]
    }

    /// Begins a pass. Apps that are no longer registered are forgotten, and their processes
    /// handed out, which are to be ended.
    pub fn begin(apps: Vec<AppConfig>, runtime: Runtime) -> (r: (Pass, Vec<i32>))
        requires
            runtime.wf(),
        ensures
            r.0.wf(),
            r.0.apps == apps,
            r.0.at == 0,
            r.0.runtime@ == runtime@.filter(registered(model::app_views(apps@), true)),
            r.1@ == all_live_pids(runtime@.filter(registered(model::app_views(apps@), false))),
    {
        let ghost all = runtime@;
        let mut runtime = runtime;
        let pids = prune_apps(&apps, &mut runtime);
        let pass = Pass { apps, runtime, at: 0 };
        proof {
            let views = model::app_views(pass.apps@);
            let s = pass.runtime@;
            pruning_keeps_the_registered(all, views);
            assert forall|name: Seq<char>| #[trigger]
                pass.runtime.map().dom().contains(name) implies model::has_name(views, name) by {
                let i = choose|i: int| 0 <= i < s.len() && (#[trigger] s[i]).0 == name;
                assert(model::has_name(views, s[i].0));
            }
        }
        (pass, pids)
    }

    /// The processes of the next app to look at; `None` once the pass is done with all.
    pub fn probe(&self) -> (r: Option<Vec<(usize, i32)>>)
        requires
            self.wf(),
        ensures
            r is None <==> self.at == self.apps@.len(),
            r is Some ==> (r->0)@ == probed(self.instances(), self.app().instances),
    {
        if self.at == self.apps.len() {
            return None;
        }
        let app = &self.apps[self.at];
        match self.runtime.get(app.name.as_str()) {
            Some(rt) => Some(to_probe(rt, app)),
            None => Some(Vec::new()),
        }
    }

    /// Takes in what was found out about the processes of the app. Hands out the processes of
    /// the instances that are too many, which are to be ended, and the indices of those that
    /// have no process and should have one, which are to be started then.
    pub fn settle(&mut self, seen: &Vec<Observation>) -> (r: (Vec<i32>, Vec<usize>))
        requires
            old(self).wf(),
            old(self).at < old(self).apps@.len(),
            seen@.len() == probed(old(self).instances(), old(self).app().instances).len(),
        ensures
            final(self).wf(),
            final(self).at == old(self).at,
            final(self).differs_at_app(*old(self)),
            model::pairs_map(final(self).instances()) == filled(
                model::pairs_map(checked(old(self).instances(), old(self).app().instances, seen@)),
                wanted(old(self).app()),
            ),
            r.0@ == live_pids(excess(old(self).instances(), old(self).app().instances)),
            r.1@ == idle(model::pairs_map(final(self).instances()), wanted(old(self).app())),
    {
        let ghost before = *self;
        let ghost name = self.app().name;
        let mut rt = match self.runtime.remove(self.apps[self.at].name.as_str()) {
            Some(rt) => rt,
            None => AppRuntime::default(),
        };
        assert(rt@ =~= before.instances());
        let pids = check_app(&mut rt, &self.apps[self.at], seen);
        let targets = to_launch(&mut rt, &self.apps[self.at]);
        self.runtime.insert(self.apps[self.at].name.clone(), rt);
        proof {
            assert(self.runtime.map().dom() =~= before.runtime.map().dom().insert(name));
            self.keeps_wf(before);
        }
        (pids, targets)
    }

    /// Takes in what came of starting instances of the app, and goes on to the next app.
    pub fn record(&mut self, targets: &Vec<usize>, results: &Vec<Option<Launched>>)
        requires
            old(self).wf(),
            old(self).at < old(self).apps@.len(),
            old(self).runtime.map().dom().contains(old(self).app().name),
            targets@.len() == results@.len(),
            targets@.no_duplicates(),
            forall|k: int|
                0 <= k < targets@.len() ==> model::pairs_map(old(self).instances()).dom().contains(
                    #[trigger] targets@[k],
                ),
            restarts_can_grow(model::pairs_map(old(self).instances()), targets@, results@),
        ensures
            final(self).wf(),
            final(self).at == old(self).at + 1,
            final(self).differs_at_app(*old(self)),
            model::pairs_map(instances_of(final(self).runtime.map(), old(self).app().name)) == launched(
                model::pairs_map(old(self).instances()),
                targets@,
                results@,
            ),
    {
        let ghost before = *self;
        let ghost name = self.app().name;
        let mut rt = match self.runtime.remove(self.apps[self.at].name.as_str()) {
            Some(rt) => rt,
            None => AppRuntime::default(),
        };
        assert(rt@ =~= before.instances());
        record_launches(&mut rt, targets, results);
        self.runtime.insert(self.apps[self.at].name.clone(), rt);
        proof {
            assert(self.runtime.map().dom() =~= before.runtime.map().dom().insert(name));
            self.keeps_wf(before);
        }
        assert(self.at < self.apps.len());
        self.at = self.at + 1;
    }

    /// Whether the restarts of the app can be counted on.
    pub fn restarts_fit(&self, targets: &Vec<usize>, results: &Vec<Option<Launched>>) -> (r: bool)
        requires
            self.wf(),
            self.at < self.apps@.len(),
            self.runtime.map().dom().contains(self.app().name),
            targets@.len() == results@.len(),
            forall|k: int|
                0 <= k < targets@.len() ==> model::pairs_map(self.instances()).dom().contains(
                    #[trigger] targets@[k],
                ),
        ensures
            r == restarts_can_grow(model::pairs_map(self.instances()), targets@, results@),
    {
        match self.runtime.get(self.apps[self.at].name.as_str()) {
            Some(rt) => restarts_fit(rt, targets, results),
            None => true,
        }
    }

    proof fn keeps_wf(self, before: Pass)
        requires
            before.wf(),
            before.at < before.apps@.len(),
            self.at == before.at,
            self.apps == before.apps,
            self.runtime.wf(),
            self.runtime.map().dom() == before.runtime.map().dom().insert(before.app().name),
        ensures
            self.wf(),
    {
        let views = model::app_views(self.apps@);
        assert(views[self.at as int].name == before.app().name);
    }
}

/// A pass that is done with all apps knows exactly the apps that are registered.
pub proof fn done_pass_knows_the_registered(p: Pass, name: Seq<char>)
    requires
        p.wf(),
        p.at == p.apps@.len(),
    ensures
        p.runtime.map().dom().contains(name) <==> model::has_name(model::app_views(p.apps@), name),
{
    let views = model::app_views(p.apps@);
    if model::has_name(views, name) {
        let i = choose|i: int| 0 <= i < views.len() && #[trigger] views[i].name == name;
        assert(p.apps@[i]@.name == name);
    }
}

/// What a pass over one app does: nothing but the instances of that app changes, by what was
/// found out about its processes and what came of starting others.
pub open spec fn turn(
    before: Pass,
    after: Pass,
    seen: Seq<Observation>,
    results: Seq<Option<Launched>>,
) -> bool {
    let app = before.app();
    let m = filled(
        model::pairs_map(checked(before.instances(), app.instances, seen)),
        wanted(app),
    );
    &&& before.at < before.apps@.len()
    &&& after.at == before.at + 1
    &&& after.differs_at_app(before)
    &&& results.len() == idle(m, wanted(app)).len()
    &&& model::pairs_map(instances_of(after.runtime.map(), app.name)) == launched(
        m,
        idle(m, wanted(app)),
        results,
    )
}

/// Settling an app and recording what came of starting what `settle` handed out is a turn.
pub proof fn settle_then_record_is_a_turn(
    before: Pass,
    settled: Pass,
    after: Pass,
    seen: Seq<Observation>,
    targets: Seq<usize>,
    results: Seq<Option<Launched>>,
)
    requires
        before.at < before.apps@.len(),
        settled.at == before.at,
        settled.differs_at_app(before),
        model::pairs_map(settled.instances()) == filled(
            model::pairs_map(checked(before.instances(), before.app().instances, seen)),
            wanted(before.app()),
        ),
        targets == idle(model::pairs_map(settled.instances()), wanted(before.app())),
        targets.len() == results.len(),
        after.at == settled.at + 1,
        after.differs_at_app(settled),
        model::pairs_map(instances_of(after.runtime.map(), settled.app().name)) == launched(
            model::pairs_map(settled.instances()),
            targets,
            results,
        ),
    ensures
        turn(before, after, seen, results),
{
    let name = before.app().name;
    assert(after.runtime.map().dom() =~= before.runtime.map().dom().insert(name));
    assert forall|other: Seq<char>|
        other != name && before.runtime.map().dom().contains(other) implies #[trigger] after.runtime.map()[other]
        == before.runtime.map()[other] by {
        assert(settled.runtime.map()[other] == before.runtime.map()[other]);
    }
}

/// Looking at processes adds no instance.
proof fn checked_adds_nothing(s: Seq<(usize, InstanceRuntime)>, n: nat, seen: Seq<Observation>)
    ensures
        forall|i: usize| #[trigger]
            model::pairs_map(checked(s, n, seen)).dom().contains(i) ==> model::pairs_map(s).dom().contains(i),
    decreases s.len(),
{
    if s.len() > 0 {
        let (idx, inst) = s.last();
        let t = s.drop_last();
        let shorter = if idx < n && inst.pid > 0 {
            seen.drop_last()
        } else {
            seen
        };
        checked_adds_nothing(t, n, shorter);
        let c = checked(s, n, seen);
        let b = checked(t, n, shorter);
        assert forall|i: usize| #[trigger]
            model::pairs_map(c).dom().contains(i) implies model::pairs_map(s).dom().contains(i) by {
            let k = choose|k: int| 0 <= k < c.len() && (#[trigger] c[k]).0 == i;
            if k < b.len() {
                assert(c[k] == b[k]);
                assert(model::pairs_map(b).dom().contains(i));
                let j = choose|j: int| 0 <= j < t.len() && (#[trigger] t[j]).0 == i;
                assert(s[j].0 == i);
            } else {
                assert(s[s.len() - 1].0 == i);
            }
        }
    }
}

/// A pass from its beginning to its end: one turn for each app.
pub open spec fn whole_pass(
    states: Seq<Pass>,
    seen: Seq<Seq<Observation>>,
    results: Seq<Seq<Option<Launched>>>,
) -> bool {
    &&& states.len() == states[0].apps@.len() + 1
    &&& states[0].at == 0
    &&& seen.len() == states[0].apps@.len()
    &&& results.len() == states[0].apps@.len()
    &&& forall|k: int|
        0 <= k < states[0].apps@.len() ==> turn(#[trigger] states[k], states[k + 1], seen[k], results[k])
}

proof fn pass_counts_apps(
    states: Seq<Pass>,
    seen: Seq<Seq<Observation>>,
    results: Seq<Seq<Option<Launched>>>,
    k: int,
)
    requires
        whole_pass(states, seen, results),
        0 <= k < states.len(),
    ensures
        states[k].at == k,
        states[k].apps == states[0].apps,
    decreases k,
{
    if k > 0 {
        pass_counts_apps(states, seen, results, k - 1);
        assert(turn(states[k - 1], states[k], seen[k - 1], results[k - 1]));
    }
}

/// While the pass is at apps of other names, the instances of a name stay as they are.
proof fn turns_leave_others(
    states: Seq<Pass>,
    seen: Seq<Seq<Observation>>,
    results: Seq<Seq<Option<Launched>>>,
    name: Seq<char>,
    a: int,
    b: int,
)
    requires
        whole_pass(states, seen, results),
        0 <= a <= b < states.len(),
        forall|k: int| a <= k < b ==> (#[trigger] states[0].apps@[k])@.name != name,
    ensures
        instances_of(states[b].runtime.map(), name) == instances_of(states[a].runtime.map(), name),
        states[b].runtime.map().dom().contains(name) == states[a].runtime.map().dom().contains(name),
    decreases b - a,
{
    if a < b {
        turns_leave_others(states, seen, results, name, a, b - 1);
        pass_counts_apps(states, seen, results, b - 1);
        assert(turn(states[b - 1], states[b], seen[b - 1], results[b - 1]));
        assert(states[b - 1].app().name != name);
    }
}

/// After a whole pass over apps with distinct names, each app is known with no index too high
/// and with a place for each instance that should run. A paused app has no instance more than
/// before. Where each start of an app gave a process, each instance of it that should run has
/// one.
pub proof fn whole_pass_sees_to_every_app(
    states: Seq<Pass>,
    seen: Seq<Seq<Observation>>,
    results: Seq<Seq<Option<Launched>>>,
    k: int,
)
    requires
        whole_pass(states, seen, results),
        model::distinct_names(model::app_views(states[0].apps@)),
        0 <= k < states[0].apps@.len(),
    ensures
        ({
            let app = states[0].apps@[k]@;
            let before = model::pairs_map(instances_of(states[0].runtime.map(), app.name));
            let after = model::pairs_map(instances_of(states.last().runtime.map(), app.name));
            &&& states.last().runtime.map().dom().contains(app.name)
            &&& forall|i: usize| #[trigger] after.dom().contains(i) ==> i < app.instances
            &&& forall|i: usize| i < wanted(app) ==> #[trigger] after.dom().contains(i)
            &&& app.paused ==> forall|i: usize| #[trigger]
                after.dom().contains(i) ==> before.dom().contains(i)
            &&& (forall|j: int|
                0 <= j < results[k].len() ==> (#[trigger] results[k][j]) is Some && results[k][j]->0.pid != 0)
                ==> forall|i: usize| i < wanted(app) ==> (#[trigger] after[i]).pid != 0
        }),
{
    let views = model::app_views(states[0].apps@);
    let app = states[0].apps@[k]@;
    assert forall|j: int| 0 <= j < views.len() && j != k implies (#[trigger] states[0].apps@[j])@.name != app.name by {
        assert(views[j].name == states[0].apps@[j]@.name);
        assert(views[k].name == app.name);
        if j < k {
            assert(views[j].name != views[k].name);
        } else {
            assert(views[k].name != views[j].name);
        }
    }
    let n = states.len() - 1;
    turns_leave_others(states, seen, results, app.name, 0, k);
    turns_leave_others(states, seen, results, app.name, k + 1, n);
    pass_counts_apps(states, seen, results, k);
    let p = states[k];
    assert(turn(p, states[k + 1], seen[k], results[k]));
    assert(p.app() == app);
    let s = p.instances();
    pass_leaves_no_excess(s, app, seen[k], results[k]);
    let m = model::pairs_map(checked(s, app.instances, seen[k]));
    let w = wanted(app);
    let full = filled(m, w);
    idle_properties(full, w);
    launched_properties(full, idle(full, w), results[k]);
    checked_adds_nothing(s, app.instances, seen[k]);
    if forall|j: int|
        0 <= j < results[k].len() ==> (#[trigger] results[k][j]) is Some && results[k][j]->0.pid != 0 {
        pass_keeps_alive(m, w, results[k]);
        let after = launched(full, idle(full, w), results[k]);
        assert forall|i: usize| i < w implies (#[trigger] after[i]).pid != 0 by {
            assert(after.dom().contains(i));
        }
    }
}

/// What `settle` hands out to be started is what `record` can take: places that are there,
/// each once.
pub proof fn settled_targets_can_be_recorded(m: Map<usize, InstanceRuntime>, n: nat)
    requires
        n <= usize::MAX,
    ensures
        idle(filled(m, n), n).no_duplicates(),
        forall|k: int|
            0 <= k < idle(filled(m, n), n).len() ==> filled(m, n).dom().contains(
                #[trigger] idle(filled(m, n), n)[k],
            ),
{
    idle_properties(filled(m, n), n);
}

/// How an instance is started.
#[derive(Debug)]
pub struct LaunchPlan {
    pub cmd: String,
    pub args: Vec<String>,
    /// Whether the environment of the daemon is left out.
    pub clear_env: bool,
    /// Variables to set, one after another.
    pub env: Vec<(String, String)>,
}

/// The variables that are set for an instance: those of the env file, then those of
/// the supervisor.
pub open spec fn launch_env(
    name: Seq<char>,
    idx: nat,
    file: Seq<(Seq<char>, Seq<char>)>,
    log: Seq<char>,
) -> Seq<(Seq<char>, Seq<char>)> {
    file.push(("RUNNER_APP"@, name)).push(("RUNNER_INSTANCE"@, text::decimal(idx))).push(
        ("RUNNER_LOG"@, log),
    )
}

/// Plans the start of an instance. `file_env` is what the env file sets, and `log` where its
/// output goes.
pub fn spawn_instance(app: &AppConfig, idx: usize, file_env: Vec<(String, String)>, log: &str) -> (r: LaunchPlan)
    ensures
        r.cmd@ == app@.cmd,
        text::texts(r.args@) == app@.args,
        r.clear_env == app@.clean_env,
        env_file::pair_texts(r.env@) == launch_env(app@.name, idx as nat, env_file::pair_texts(file_env@), log@),
{
    let mut env = file_env;
    env.push(("RUNNER_APP".to_owned(), app.name.clone()));
    env.push(("RUNNER_INSTANCE".to_owned(), write_decimal(idx as u64)));
    env.push(("RUNNER_LOG".to_owned(), log.to_owned()));
    assert(env_file::pair_texts(env@) =~= launch_env(
        app@.name,
        idx as nat,
        env_file::pair_texts(file_env@),
        log@,
    ));
    LaunchPlan { cmd: app.cmd.clone(), args: copy_texts(&app.args), clear_env: app.clean_env, env }
}

/// The value that a variable has after assignments: the last one counts.
pub open spec fn value_of(env: Seq<(Seq<char>, Seq<char>)>, key: Seq<char>) -> Option<Seq<char>>
    decreases env.len(),
{
    if env.len() == 0 {
        None
    } else if env.last().0 == key {
        Some(env.last().1)
    } else {
        value_of(env.drop_last(), key)
    }
}

/// The supervisor's own variables cannot be set by an env file, and every other variable
/// is as the env file says.
pub proof fn own_variables_win(
    name: Seq<char>,
    idx: nat,
    file: Seq<(Seq<char>, Seq<char>)>,
    log: Seq<char>,
    key: Seq<char>,
)
    ensures
        value_of(launch_env(name, idx, file, log), key) == (if key == "RUNNER_APP"@ {
            Some(name)
        } else if key == "RUNNER_INSTANCE"@ {
            Some(text::decimal(idx))
        } else if key == "RUNNER_LOG"@ {
            Some(log)
        } else {
            value_of(file, key)
        }),
{
    reveal_strlit("RUNNER_APP");
    reveal_strlit("RUNNER_INSTANCE");
    reveal_strlit("RUNNER_LOG");
    assert("RUNNER_APP"@.len() != "RUNNER_INSTANCE"@.len());
    assert("RUNNER_LOG"@[7] != "RUNNER_APP"@[7]);
    assert("RUNNER_LOG"@.len() != "RUNNER_INSTANCE"@.len());
    let a = file.push(("RUNNER_APP"@, name));
    let b = a.push(("RUNNER_INSTANCE"@, text::decimal(idx)));
    let c = b.push(("RUNNER_LOG"@, log));
    assert(c.drop_last() =~= b);
    assert(b.drop_last() =~= a);
    assert(a.drop_last() =~= file);
    reveal_with_fuel(value_of, 4);
}

/// What is said where an instance could not be started.
pub fn spawn_failure(app: &AppConfig, idx: usize, err: &str) -> (r: String)
    ensures
        r@ == "spawn failed for "@ + app@.name + "["@ + text::decimal(idx as nat) + "]: "@ + err@,
{
    "spawn failed for ".to_owned().concat(app.name.as_str()).concat("[").concat(
        write_decimal(idx as u64).as_str(),
    ).concat("]: ").concat(err)
}

/// A process that still runs is left alone: looking at it changes nothing that is known of
/// its instance.
pub proof fn running_instance_is_left_alone(inst: InstanceRuntime, o: Observation)
    requires
        o.exit is None,
        o.alive,
    ensures
        observed(inst, o).pid == inst.pid,
        observed(inst, o).started_at == inst.started_at,
        observed(inst, o).restarts == inst.restarts,
        observed(inst, o).last_exit_at == inst.last_exit_at,
        observed(inst, o).last_exit_code == inst.last_exit_code,
        observed(inst, o).last_exit_signal == inst.last_exit_signal,
        observed(inst, o) == inst,
{
}

/// A process that ended, or that is gone, leaves its instance without one. How it ended is
/// known as far as it was told, and the starts that were counted stay counted.
pub proof fn ended_instance_has_no_process(inst: InstanceRuntime, o: Observation)
    requires
        o.exit is Some || !o.alive,
    ensures
        observed(inst, o).pid == 0,
        observed(inst, o).started_at == inst.started_at,
        observed(inst, o).restarts == inst.restarts,
        observed(inst, o).last_exit_at == Some(o.at),
        o.exit matches Some(e) ==> observed(inst, o).last_exit_code == e.code && observed(
            inst,
            o,
        ).last_exit_signal == e.signal,
        o.exit is None ==> observed(inst, o).last_exit_code is None && observed(
            inst,
            o,
        ).last_exit_signal is None,
{
}

/// A start is known by its process and its time. It counts as a restart exactly where the
/// instance was started before, and what is known of the last exit stays.
pub proof fn start_is_known(inst: InstanceRuntime, l: Launched)
    requires
        inst.restarts < u64::MAX,
    ensures
        relaunched(inst, l).pid == l.pid,
        relaunched(inst, l).started_at == l.at,
        relaunched(inst, l).restarts - inst.restarts == (if inst.started_at == 0 {
            0int
        } else {
            1
        }),
        relaunched(inst, l).last_exit_at == inst.last_exit_at,
        relaunched(inst, l).last_exit_code == inst.last_exit_code,
        relaunched(inst, l).last_exit_signal == inst.last_exit_signal,
{
}

/// The processes of instances in two parts are those of the first part, then those of the
/// second; one instance has its process, where it has one, whatever else is known of it.
pub proof fn every_process_is_handed_out(
    a: Seq<(usize, InstanceRuntime)>,
    b: Seq<(usize, InstanceRuntime)>,
    e: (usize, InstanceRuntime),
)
    ensures
        live_pids(a + b) == live_pids(a) + live_pids(b),
        e.1.pid > 0 ==> live_pids(seq![e]) == seq![e.1.pid],
        e.1.pid <= 0 ==> live_pids(seq![e]) == Seq::<i32>::empty(),
    decreases b.len(),
{
    let one = seq![e];
    assert(one.drop_last() =~= Seq::empty());
    assert(live_pids(one.drop_last()) =~= Seq::<i32>::empty());
    assert(one.last() == e);
    if e.1.pid > 0 {
        assert(live_pids(one) =~= seq![e.1.pid]);
    }
    if b.len() == 0 {
        assert(a + b =~= a);
        assert(live_pids(a) + live_pids(b) =~= live_pids(a));
    } else {
        assert((a + b).drop_last() =~= a + b.drop_last());
        assert((a + b).last() == b.last());
        every_process_is_handed_out(a, b.drop_last(), e);
        assert(live_pids(a + b) =~= live_pids(a) + live_pids(b));
    }
}

/// The processes handed out are those of the instances that have one, whatever else is known
/// of them, and no others.
pub proof fn processes_are_those_of_instances(s: Seq<(usize, InstanceRuntime)>, pid: i32)
    ensures
        live_pids(s).contains(pid) <==> pid > 0 && exists|i: int|
            0 <= i < s.len() && (#[trigger] s[i]).1.pid == pid,
    decreases s.len(),
{
    if s.len() > 0 {
        let t = s.drop_last();
        processes_are_those_of_instances(t, pid);
        let b = live_pids(t);
        let all = live_pids(s);
        if all.contains(pid) {
            let k = choose|k: int| 0 <= k < all.len() && all[k] == pid;
            if k < b.len() {
                assert(b[k] == pid);
                assert(b.contains(pid));
                let i = choose|i: int| 0 <= i < t.len() && (#[trigger] t[i]).1.pid == pid;
                assert(s[i].1.pid == pid);
            } else {
                assert(s[s.len() - 1].1.pid == pid);
            }
        }
        if pid > 0 && exists|i: int| 0 <= i < s.len() && (#[trigger] s[i]).1.pid == pid {
            let i = choose|i: int| 0 <= i < s.len() && (#[trigger] s[i]).1.pid == pid;
            if i < t.len() {
                assert(t[i].1.pid == pid);
                assert(b.contains(pid));
                let k = choose|k: int| 0 <= k < b.len() && b[k] == pid;
                assert(all[k] == pid);
            } else {
                assert(all[all.len() - 1] == pid);
            }
        }
    }
}

/// The processes of all apps are those of the instances of any of them.
pub proof fn processes_are_those_of_apps(s: RuntimeView, pid: i32)
    ensures
        all_live_pids(s).contains(pid) <==> pid > 0 && exists|i: int, j: int|
            0 <= i < s.len() && 0 <= j < s[i].1.len() && (#[trigger] s[i].1[j]).1.pid == pid,
    decreases s.len(),
{
    if s.len() > 0 {
        let t = s.drop_last();
        let last = s.len() - 1;
        processes_are_those_of_apps(t, pid);
        processes_are_those_of_instances(s.last().1, pid);
        let b = all_live_pids(t);
        let c = live_pids(s.last().1);
        let all = all_live_pids(s);
        if all.contains(pid) {
            let k = choose|k: int| 0 <= k < all.len() && all[k] == pid;
            if k < b.len() {
                assert(b[k] == pid);
                assert(b.contains(pid));
                let (i, j) = choose|i: int, j: int|
                    0 <= i < t.len() && 0 <= j < t[i].1.len() && (#[trigger] t[i].1[j]).1.pid == pid;
                assert(s[i].1[j].1.pid == pid);
            } else {
                assert(c[k - b.len()] == pid);
                assert(c.contains(pid));
                let j = choose|j: int| 0 <= j < s.last().1.len() && (#[trigger] s.last().1[j]).1.pid == pid;
                assert(s[last].1[j].1.pid == pid);
            }
        }
        if pid > 0 && exists|i: int, j: int|
            0 <= i < s.len() && 0 <= j < s[i].1.len() && (#[trigger] s[i].1[j]).1.pid == pid {
            let (i, j) = choose|i: int, j: int|
                0 <= i < s.len() && 0 <= j < s[i].1.len() && (#[trigger] s[i].1[j]).1.pid == pid;
            if i < last {
                assert(t[i].1[j].1.pid == pid);
                assert(b.contains(pid));
                let k = choose|k: int| 0 <= k < b.len() && b[k] == pid;
                assert(all[k] == pid);
            } else {
                assert(s.last().1[j].1.pid == pid);
                assert(c.contains(pid));
                let k = choose|k: int| 0 <= k < c.len() && c[k] == pid;
                assert(all[b.len() + k] == pid);
            }
        }
    }
}

/// Forgetting apps hands out the process of every instance of every app that is no longer
/// registered, and no process of an app that is.
pub proof fn pruning_ends_the_forgotten(s: RuntimeView, apps: Seq<AppView>, pid: i32)
    ensures
        all_live_pids(s.filter(registered(apps, false))).contains(pid) <==> pid > 0 && exists|i: int, j: int|
            0 <= i < s.len() && !model::has_name(apps, s[i].0) && 0 <= j < s[i].1.len() && (
            #[trigger] s[i].1[j]).1.pid == pid,
{
    let f = registered(apps, false);
    let t = s.filter(f);
    processes_are_those_of_apps(t, pid);
    if all_live_pids(t).contains(pid) {
        let (i, j) = choose|i: int, j: int|
            0 <= i < t.len() && 0 <= j < t[i].1.len() && (#[trigger] t[i].1[j]).1.pid == pid;
        assert(f(t[i]));
        assert(s.contains(t[i])) by {
            s.lemma_filter_contains_rev(f, t[i]);
        }
        let k = choose|k: int| 0 <= k < s.len() && s[k] == t[i];
        assert(s[k].1[j].1.pid == pid);
    }
    if pid > 0 && exists|i: int, j: int|
        0 <= i < s.len() && !model::has_name(apps, s[i].0) && 0 <= j < s[i].1.len() && (
        #[trigger] s[i].1[j]).1.pid == pid {
        let (i, j) = choose|i: int, j: int|
            0 <= i < s.len() && !model::has_name(apps, s[i].0) && 0 <= j < s[i].1.len() && (
            #[trigger] s[i].1[j]).1.pid == pid;
        assert(f(s[i]));
        assert(t.contains(s[i]));
        let k = choose|k: int| 0 <= k < t.len() && t[k] == s[i];
        assert(t[k].1[j].1.pid == pid);
    }
}

/// The processes that a check hands out are those of the instances whose index is too high,
/// whatever else is known of them, and no others.
pub proof fn excess_is_ended(s: Seq<(usize, InstanceRuntime)>, n: nat, pid: i32)
    ensures
        live_pids(excess(s, n)).contains(pid) <==> pid > 0 && exists|i: int|
            0 <= i < s.len() && s[i].0 >= n && (#[trigger] s[i]).1.pid == pid,
{
    let f = |e: (usize, InstanceRuntime)| e.0 >= n;
    let t = excess(s, n);
    processes_are_those_of_instances(t, pid);
    if live_pids(t).contains(pid) {
        let i = choose|i: int| 0 <= i < t.len() && (#[trigger] t[i]).1.pid == pid;
        assert(f(t[i]));
        s.lemma_filter_contains_rev(f, t[i]);
        let k = choose|k: int| 0 <= k < s.len() && s[k] == t[i];
        assert(s[k].1.pid == pid);
    }
    if pid > 0 && exists|i: int| 0 <= i < s.len() && s[i].0 >= n && (#[trigger] s[i]).1.pid == pid {
        let i = choose|i: int| 0 <= i < s.len() && s[i].0 >= n && (#[trigger] s[i]).1.pid == pid;
        assert(f(s[i]));
        assert(t.contains(s[i]));
        let k = choose|k: int| 0 <= k < t.len() && t[k] == s[i];
        assert(t[k].1.pid == pid);
    }
}

/// The processes to look at are those of the instances that should run, each with its index,
/// and no others; they come in the order of the instances.
pub proof fn processes_to_look_at(s: Seq<(usize, InstanceRuntime)>, n: nat)
    ensures
        forall|i: int|
            0 <= i < s.len() && (#[trigger] s[i]).0 < n && s[i].1.pid > 0 ==> probed(s, n).contains(
                (s[i].0, s[i].1.pid),
            ),
        forall|k: int|
            0 <= k < probed(s, n).len() ==> (#[trigger] probed(s, n)[k]).0 < n && probed(s, n)[k].1 > 0
                && exists|i: int|
                0 <= i < s.len() && (#[trigger] s[i]).0 == probed(s, n)[k].0 && s[i].1.pid == probed(
                    s,
                    n,
                )[k].1,
        model::ascending(s) ==> forall|j: int, k: int|
            0 <= j < k < probed(s, n).len() ==> (#[trigger] probed(s, n)[j]).0 < (#[trigger] probed(
                s,
                n,
            )[k]).0,
    decreases s.len(),
{
    if s.len() > 0 {
        let t = s.drop_last();
        processes_to_look_at(t, n);
        let b = probed(t, n);
        let all = probed(s, n);
        assert forall|i: int|
            0 <= i < s.len() && (#[trigger] s[i]).0 < n && s[i].1.pid > 0 implies all.contains(
            (s[i].0, s[i].1.pid),
        ) by {
            if i < t.len() {
                assert(t[i] == s[i]);
                let k = choose|k: int| 0 <= k < b.len() && b[k] == (s[i].0, s[i].1.pid);
                assert(all[k] == b[k]);
            } else {
                assert(all.last() == (s[i].0, s[i].1.pid));
            }
        }
        assert forall|k: int|
            0 <= k < all.len() implies (#[trigger] all[k]).0 < n && all[k].1 > 0 && exists|i: int|
            0 <= i < s.len() && (#[trigger] s[i]).0 == all[k].0 && s[i].1.pid == all[k].1 by {
            if k < b.len() {
                assert(all[k] == b[k]);
                let i = choose|i: int|
                    0 <= i < t.len() && (#[trigger] t[i]).0 == b[k].0 && t[i].1.pid == b[k].1;
                assert(s[i] == t[i]);
            } else {
                assert(s[s.len() - 1].0 == all[k].0);
            }
        }
        if model::ascending(s) {
            assert(model::ascending(t));
            assert forall|j: int, k: int|
                0 <= j < k < all.len() implies (#[trigger] all[j]).0 < (#[trigger] all[k]).0 by {
                assert(all[j] == b[j]);
                if k < b.len() {
                    assert(all[k] == b[k]);
                } else {
                    let i = choose|i: int|
                        0 <= i < t.len() && (#[trigger] t[i]).0 == b[j].0 && t[i].1.pid == b[j].1;
                    assert(s[i].0 < s[s.len() - 1].0);
                }
            }
        }
    }
}

proof fn checked_holds(s: Seq<(usize, InstanceRuntime)>, n: nat, seen: Seq<Observation>, i: int, k: int)
    requires
        model::ascending(s),
        seen.len() == probed(s, n).len(),
        0 <= i < s.len(),
        s[i].0 < n,
        s[i].1.pid > 0 ==> 0 <= k < seen.len() && probed(s, n)[k].0 == s[i].0,
    ensures
        s[i].1.pid > 0 ==> checked(s, n, seen).contains((s[i].0, observed(s[i].1, seen[k]))),
        s[i].1.pid <= 0 ==> checked(s, n, seen).contains(s[i]),
    decreases s.len(),
{
    let t = s.drop_last();
    let (idx, inst) = s.last();
    let b = probed(t, n);
    let c = checked(s, n, seen);
    let looked = idx < n && inst.pid > 0;
    let shorter = if looked {
        seen.drop_last()
    } else {
        seen
    };
    let d = checked(t, n, shorter);
    assert(model::ascending(t));
    processes_to_look_at(t, n);
    if i == s.len() - 1 {
        if s[i].1.pid > 0 {
            if k < b.len() {
                assert(b[k] == probed(s, n)[k]);
                let x = choose|x: int|
                    0 <= x < t.len() && (#[trigger] t[x]).0 == b[k].0 && t[x].1.pid == b[k].1;
                assert(s[x].0 < s[i].0);
            }
            assert(c[c.len() - 1] == (s[i].0, observed(s[i].1, seen[k])));
        } else {
            assert(c[c.len() - 1] == s[i]);
        }
    } else {
        assert(t[i] == s[i]);
        assert(s[i].0 < s[s.len() - 1].0);
        if s[i].1.pid > 0 {
            assert(k < b.len());
            assert(b[k] == probed(s, n)[k]);
            assert(shorter[k] == seen[k]);
        }
        checked_holds(t, n, shorter, i, k);
        let e = if s[i].1.pid > 0 {
            (s[i].0, observed(s[i].1, seen[k]))
        } else {
            s[i]
        };
        let q = choose|q: int| 0 <= q < d.len() && d[q] == e;
        assert(c[q] == d[q]);
    }
}

/// A check keeps the order of the instances, and adds none.
proof fn check_keeps_order(s: Seq<(usize, InstanceRuntime)>, n: nat, seen: Seq<Observation>)
    requires
        model::ascending(s),
    ensures
        model::ascending(checked(s, n, seen)),
        forall|q: int|
            0 <= q < checked(s, n, seen).len() ==> exists|i: int|
                0 <= i < s.len() && (#[trigger] s[i]).0 == (#[trigger] checked(s, n, seen)[q]).0,
    decreases s.len(),
{
    if s.len() > 0 {
        let t = s.drop_last();
        let (idx, inst) = s.last();
        let shorter = if idx < n && inst.pid > 0 {
            seen.drop_last()
        } else {
            seen
        };
        let c = checked(s, n, seen);
        let d = checked(t, n, shorter);
        assert(model::ascending(t));
        check_keeps_order(t, n, shorter);
        assert forall|q: int| 0 <= q < c.len() implies exists|i: int|
            0 <= i < s.len() && (#[trigger] s[i]).0 == (#[trigger] c[q]).0 by {
            if q < d.len() {
                assert(c[q] == d[q]);
                let i = choose|i: int| 0 <= i < t.len() && (#[trigger] t[i]).0 == d[q].0;
                assert(s[i] == t[i]);
            } else {
                assert(s[s.len() - 1].0 == c[q].0);
            }
        }
        assert forall|a: int, b: int| 0 <= a < b < c.len() implies (#[trigger] c[a]).0 < (#[trigger] c[b]).0 by {
            assert(c[a] == d[a]);
            if b < d.len() {
                assert(c[b] == d[b]);
            } else {
                let i = choose|i: int| 0 <= i < t.len() && (#[trigger] t[i]).0 == d[a].0;
                assert(s[i].0 < s[s.len() - 1].0);
            }
        }
    }
}

/// A check goes by what was seen of each process. An instance that should run and whose
/// process was seen alive is known as before. One whose process ended or is gone has none,
/// and how and when it ended is known. One that had no process is known as before. One whose
/// index is too high is no longer known.
pub proof fn check_goes_by_what_was_seen(
    s: Seq<(usize, InstanceRuntime)>,
    n: nat,
    seen: Seq<Observation>,
    i: int,
    k: int,
)
    requires
        model::ascending(s),
        seen.len() == probed(s, n).len(),
        0 <= i < s.len(),
        s[i].0 < n && s[i].1.pid > 0 ==> 0 <= k < seen.len() && probed(s, n)[k].0 == s[i].0,
    ensures
        ({
            let after = model::pairs_map(checked(s, n, seen));
            let (idx, inst) = s[i];
            let o = seen[k];
            &&& after.dom().contains(idx) <==> idx < n
            &&& idx < n && inst.pid <= 0 ==> after[idx] == inst
            &&& idx < n && inst.pid > 0 && o.exit is None && o.alive ==> after[idx] == inst
            &&& idx < n && inst.pid > 0 && (o.exit is Some || !o.alive) ==> {
                &&& after[idx].pid == 0
                &&& after[idx].started_at == inst.started_at
                &&& after[idx].restarts == inst.restarts
                &&& after[idx].last_exit_at == Some(o.at)
                &&& o.exit matches Some(e) ==> after[idx].last_exit_code == e.code
                    && after[idx].last_exit_signal == e.signal
                &&& o.exit is None ==> after[idx].last_exit_code is None
                    && after[idx].last_exit_signal is None
            }
        }),
{
    let c = checked(s, n, seen);
    let (idx, inst) = s[i];
    check_drops_excess(s, n, seen);
    check_keeps_order(s, n, seen);
    assert(model::distinct_keys(c));
    model::pairs_map_properties(c);
    if idx < n {
        checked_holds(s, n, seen, i, k);
        let e = if inst.pid > 0 {
            (idx, observed(inst, seen[k]))
        } else {
            s[i]
        };
        let q = choose|q: int| 0 <= q < c.len() && c[q] == e;
        assert(c[q].0 == idx);
    } else if model::pairs_map(c).dom().contains(idx) {
        let q = choose|q: int| 0 <= q < c.len() && (#[trigger] c[q]).0 == idx;
        assert(c[q].0 < n);
    }
}

/// A whole pass leaves what runs alone: an instance with an index below the number that is
/// asked for, whose process was seen alive, is known afterwards exactly as before.
pub proof fn whole_pass_leaves_what_runs_alone(
    states: Seq<Pass>,
    seen: Seq<Seq<Observation>>,
    results: Seq<Seq<Option<Launched>>>,
    k: int,
    i: int,
    j: int,
)
    requires
        whole_pass(states, seen, results),
        model::distinct_names(model::app_views(states[0].apps@)),
        0 <= k < states[0].apps@.len(),
        ({
            let app = states[0].apps@[k]@;
            let s = instances_of(states[0].runtime.map(), app.name);
            &&& model::ascending(s)
            &&& seen[k].len() == probed(s, app.instances).len()
            &&& 0 <= i < s.len()
            &&& s[i].0 < app.instances
            &&& s[i].1.pid > 0
            &&& 0 <= j < seen[k].len()
            &&& probed(s, app.instances)[j].0 == s[i].0
            &&& seen[k][j].exit is None
            &&& seen[k][j].alive
        }),
    ensures
        ({
            let app = states[0].apps@[k]@;
            let (idx, inst) = instances_of(states[0].runtime.map(), app.name)[i];
            let after = model::pairs_map(instances_of(states.last().runtime.map(), app.name));
            after.dom().contains(idx) && after[idx] == inst
        }),
{
    whole_pass_is_one_turn(states, seen, results, k);
    let app = states[0].apps@[k]@;
    let s = instances_of(states[0].runtime.map(), app.name);
    let (idx, inst) = s[i];
    check_goes_by_what_was_seen(s, app.instances, seen[k], i, j);
    let m = filled(model::pairs_map(checked(s, app.instances, seen[k])), wanted(app));
    let t = idle(m, wanted(app));
    idle_properties(m, wanted(app));
    launched_properties(m, t, results[k]);
    assert(m[idx] == inst);
    if t.contains(idx) {
        let x = choose|x: int| 0 <= x < t.len() && t[x] == idx;
        assert(m[t[x]].pid == 0);
    }
}

/// Of an instance whose process ended, a whole pass keeps when and how. Either the instance
/// is left without a process, with its starts counted as before, or it was started again,
/// which counts as one restart more.
pub proof fn whole_pass_knows_how_processes_ended(
    states: Seq<Pass>,
    seen: Seq<Seq<Observation>>,
    results: Seq<Seq<Option<Launched>>>,
    k: int,
    i: int,
    j: int,
)
    requires
        whole_pass(states, seen, results),
        model::distinct_names(model::app_views(states[0].apps@)),
        0 <= k < states[0].apps@.len(),
        ({
            let app = states[0].apps@[k]@;
            let s = instances_of(states[0].runtime.map(), app.name);
            &&& model::ascending(s)
            &&& seen[k].len() == probed(s, app.instances).len()
            &&& 0 <= i < s.len()
            &&& s[i].0 < app.instances
            &&& s[i].1.pid > 0
            &&& s[i].1.started_at > 0
            &&& s[i].1.restarts < u64::MAX
            &&& 0 <= j < seen[k].len()
            &&& probed(s, app.instances)[j].0 == s[i].0
            &&& seen[k][j].exit is Some
        }),
    ensures
        ({
            let app = states[0].apps@[k]@;
            let (idx, inst) = instances_of(states[0].runtime.map(), app.name)[i];
            let after = model::pairs_map(instances_of(states.last().runtime.map(), app.name));
            let o = seen[k][j];
            &&& after.dom().contains(idx)
            &&& after[idx].last_exit_at == Some(o.at)
            &&& after[idx].last_exit_code == o.exit->0.code
            &&& after[idx].last_exit_signal == o.exit->0.signal
            &&& after[idx].restarts == inst.restarts ==> after[idx].pid == 0
                && after[idx].started_at == inst.started_at
            &&& after[idx].restarts != inst.restarts ==> !app.paused && after[idx].restarts
                == inst.restarts + 1 && results[k].contains(
                Some(Launched { pid: after[idx].pid, at: after[idx].started_at }),
            )
        }),
{
    whole_pass_is_one_turn(states, seen, results, k);
    let app = states[0].apps@[k]@;
    let s = instances_of(states[0].runtime.map(), app.name);
    let (idx, inst) = s[i];
    check_goes_by_what_was_seen(s, app.instances, seen[k], i, j);
    let m = filled(model::pairs_map(checked(s, app.instances, seen[k])), wanted(app));
    let t = idle(m, wanted(app));
    idle_properties(m, wanted(app));
    launched_properties(m, t, results[k]);
    if t.contains(idx) {
        let x = choose|x: int| 0 <= x < t.len() && t[x] == idx;
        assert(t[x] < wanted(app));
        if let Some(l) = results[k][x] {
            assert(results[k][x] == Some(Launched { pid: l.pid, at: l.at }));
        }
    }
}

proof fn whole_pass_is_one_turn(
    states: Seq<Pass>,
    seen: Seq<Seq<Observation>>,
    results: Seq<Seq<Option<Launched>>>,
    k: int,
)
    requires
        whole_pass(states, seen, results),
        model::distinct_names(model::app_views(states[0].apps@)),
        0 <= k < states[0].apps@.len(),
    ensures
        ({
            let app = states[0].apps@[k]@;
            let s = instances_of(states[0].runtime.map(), app.name);
            let m = filled(model::pairs_map(checked(s, app.instances, seen[k])), wanted(app));
            &&& app.instances <= usize::MAX
            &&& results[k].len() == idle(m, wanted(app)).len()
            &&& model::pairs_map(instances_of(states.last().runtime.map(), app.name)) == launched(
                m,
                idle(m, wanted(app)),
                results[k],
            )
        }),
{
    let views = model::app_views(states[0].apps@);
    let app = states[0].apps@[k]@;
    assert forall|x: int| 0 <= x < views.len() && x != k implies (#[trigger] states[0].apps@[x])@.name != app.name by {
        assert(views[x].name == states[0].apps@[x]@.name);
        assert(views[k].name == app.name);
        if x < k {
            assert(views[x].name != views[k].name);
        } else {
            assert(views[k].name != views[x].name);
        }
    }
    turns_leave_others(states, seen, results, app.name, 0, k);
    turns_leave_others(states, seen, results, app.name, k + 1, states.len() - 1);
    pass_counts_apps(states, seen, results, k);
    assert(turn(states[k], states[k + 1], seen[k], results[k]));
}

/// A place for an instance is made where there is none, with nothing known; what is known of
/// the others stays.
pub proof fn places_are_made(m: Map<usize, InstanceRuntime>, n: nat, i: usize)
    ensures
        m.dom().contains(i) ==> filled(m, n).dom().contains(i) && filled(m, n)[i] == m[i],
        !m.dom().contains(i) ==> (filled(m, n).dom().contains(i) <==> i < n),
        !m.dom().contains(i) && i < n ==> {
            let r = filled(m, n)[i];
            &&& r.pid == 0 && r.started_at == 0 && r.restarts == 0
            &&& r.last_exit_at is None && r.last_exit_code is None && r.last_exit_signal is None
        },
{
}

/// A paused app should run no instance, and any other as many as it asks for.
pub proof fn app_gets_what_it_asks_for(app: AppView)
    ensures
        app.paused ==> wanted(app) == 0,
        !app.paused ==> wanted(app) == app.instances,
{
}

/// An instance is given all variables of the env file, in order, and then the name of its app,
/// its index and its log.
pub proof fn variables_are_given_in_order(
    name: Seq<char>,
    idx: nat,
    file: Seq<(Seq<char>, Seq<char>)>,
    log: Seq<char>,
    i: int,
)
    ensures
        ({
            let env = launch_env(name, idx, file, log);
            &&& env.len() == file.len() + 3
            &&& 0 <= i < file.len() ==> env[i] == file[i]
            &&& env[file.len() as int] == ("RUNNER_APP"@, name)
            &&& env[file.len() as int + 1] == ("RUNNER_INSTANCE"@, text::decimal(idx))
            &&& env[file.len() as int + 2] == ("RUNNER_LOG"@, log)
        }),
{
}

} // verus!
