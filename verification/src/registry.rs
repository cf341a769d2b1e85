//! The list of registered apps, and what the commands change in it.
use vstd::prelude::*;
use vstd::string::*;

use crate::model;
use crate::model::{AppConfig, AppView};
use crate::text;
use crate::text::text_eq;

verus! {

/// Whether an app is registered under a name.
pub fn is_registered(apps: &Vec<AppConfig>, name: &str) -> (r: bool)
    ensures
        r == model::has_name(model::app_views(apps@), name@),
{
    let mut i: usize = 0;
    let ghost views = model::app_views(apps@);
    while i < apps.len()
        invariant
            i <= apps@.len(),
            views == model::app_views(apps@),
            forall|k: int| 0 <= k < i ==> (#[trigger] views[k]).name != name@,
        decreases apps@.len() - i,
    {
        assert(views[i as int].name == apps@[i as int].name@);
        if text_eq(apps[i].name.as_str(), name) {
            return true;
        }
        i += 1;
    }
    false
}

/// Drops the apps of a name.
pub fn drop_named(apps: Vec<AppConfig>, name: &str) -> (r: Vec<AppConfig>)
    ensures
        model::app_views(r@) == model::without_name(model::app_views(apps@), name@),
{
    let ghost all = model::app_views(apps@);
    let ghost f = |a: AppView| a.name != name@;
    let mut r: Vec<AppConfig> = Vec::new();
    proof {
        reveal(Seq::filter);
        assert(all.take(0).filter(f) =~= Seq::empty());
    }
    for app in it: apps
        invariant
            all == model::app_views(it.seq()),
            f == (|a: AppView| a.name != name@),
            model::app_views(r@) == all.take(it.index() as int).filter(f),
    {
        let ghost before = r@;
        let ghost i = it.index() as int;
        proof {
            reveal(Seq::filter);
            assert(all.take(i + 1).drop_last() =~= all.take(i));
            assert(all.take(i + 1).last() == app@);
        }
        if !text_eq(app.name.as_str(), name) {
            r.push(app);
            assert(model::app_views(r@) =~= model::app_views(before).push(app@));
        }
    }
    assert(all.take(all.len() as int) =~= all);
    r
}

/// Keeps only the apps of a name.
pub fn keep_named(apps: Vec<AppConfig>, name: &str) -> (r: Vec<AppConfig>)
    ensures
        model::app_views(r@) == model::only_name(model::app_views(apps@), name@),
{
    let ghost all = model::app_views(apps@);
    let ghost f = |a: AppView| a.name == name@;
    let mut r: Vec<AppConfig> = Vec::new();
    proof {
        reveal(Seq::filter);
        assert(all.take(0).filter(f) =~= Seq::empty());
    }
    for app in it: apps
        invariant
            all == model::app_views(it.seq()),
            f == (|a: AppView| a.name == name@),
            model::app_views(r@) == all.take(it.index() as int).filter(f),
    {
        let ghost before = r@;
        let ghost i = it.index() as int;
        proof {
            reveal(Seq::filter);
            assert(all.take(i + 1).drop_last() =~= all.take(i));
            assert(all.take(i + 1).last() == app@);
        }
        if text_eq(app.name.as_str(), name) {
            r.push(app);
            assert(model::app_views(r@) =~= model::app_views(before).push(app@));
        }
    }
    assert(all.take(all.len() as int) =~= all);
    r
}

/// The apps that are meant: those of a name, or all where none is given.
pub open spec fn selection(apps: Seq<AppView>, name: Option<Seq<char>>) -> Seq<AppView> {
    match name {
        Some(name) => model::only_name(apps, name),
        None => apps,
    }
}

/// Selects the apps that are meant.
pub fn select(apps: Vec<AppConfig>, name: Option<&str>) -> (r: Vec<AppConfig>)
    ensures
        model::app_views(r@) == selection(model::app_views(apps@), text::opt_str(name)),
{
    match name {
        Some(name) => keep_named(apps, name),
        None => apps,
    }
}

/// The apps after one was registered: it takes the place of any other of its name, and
/// comes last.
pub open spec fn with_app(apps: Seq<AppView>, app: AppView) -> Seq<AppView> {
    model::without_name(apps, app.name).push(app)
}

/// Registers an app.
pub fn register(apps: Vec<AppConfig>, app: AppConfig) -> (r: Vec<AppConfig>)
    ensures
        model::app_views(r@) == with_app(model::app_views(apps@), app@),
{
    let mut r = drop_named(apps, app.name.as_str());
    let ghost before = r@;
    r.push(app);
    assert(model::app_views(r@) =~= model::app_views(before).push(app@));
    r
}

/// The apps after others were registered, one by one.
pub open spec fn with_apps(apps: Seq<AppView>, more: Seq<AppView>) -> Seq<AppView>
    decreases more.len(),
{
    if more.len() == 0 {
        apps
    } else {
        with_app(with_apps(apps, more.drop_last()), more.last())
    }
}

/// Registers apps, one by one.
pub fn register_all(apps: Vec<AppConfig>, more: Vec<AppConfig>) -> (r: Vec<AppConfig>)
    ensures
        model::app_views(r@) == with_apps(model::app_views(apps@), model::app_views(more@)),
{
    let ghost start = model::app_views(apps@);
    let ghost all = model::app_views(more@);
    let mut r = apps;
    assert(all.take(0) =~= Seq::empty());
    for app in it: more
        invariant
            all == model::app_views(it.seq()),
            model::app_views(r@) == with_apps(start, all.take(it.index() as int)),
    {
        let ghost i = it.index() as int;
        proof {
            assert(all.take(i + 1).drop_last() =~= all.take(i));
            assert(all.take(i + 1).last() == app@);
        }
        r = register(r, app);
    }
    assert(all.take(all.len() as int) =~= all);
    r
}

/// An app that is paused, or that is not.
pub open spec fn with_pause(app: AppView, paused: bool) -> AppView {
    AppView { paused, ..app }
}

/// The apps after all were paused or resumed.
pub open spec fn all_paused(apps: Seq<AppView>, paused: bool) -> Seq<AppView> {
    apps.map_values(|a: AppView| with_pause(a, paused))
}

/// The apps after those of a name were paused or resumed.
pub open spec fn named_paused(apps: Seq<AppView>, name: Seq<char>, paused: bool) -> Seq<AppView> {
    apps.map_values(
        |a: AppView|
            if a.name == name {
                with_pause(a, paused)
            } else {
                a
            },
    )
}

/// Pauses or resumes the apps of a name, or all where none is given.
pub fn set_paused(apps: Vec<AppConfig>, name: Option<&str>, paused: bool) -> (r: Vec<AppConfig>)
    ensures
        model::app_views(r@) == (match name {
            Some(name) => named_paused(model::app_views(apps@), name@, paused),
            None => all_paused(model::app_views(apps@), paused),
        }),
{
    let ghost all = model::app_views(apps@);
    let ghost changed = match name {
        Some(name) => named_paused(all, name@, paused),
        None => all_paused(all, paused),
    };
    let mut r: Vec<AppConfig> = Vec::new();
    for app in it: apps
        invariant
            all == model::app_views(it.seq()),
            changed == (match name {
                Some(name) => named_paused(all, name@, paused),
                None => all_paused(all, paused),
            }),
            model::app_views(r@) == changed.take(it.index() as int),
    {
        let ghost before = r@;
        let ghost i = it.index() as int;
        let ghost view = app@;
        assert(all[i] == view);
        let hit = match name {
            Some(name) => text_eq(app.name.as_str(), name),
            None => true,
        };
        let mut app = app;
        if hit {
            app.paused = paused;
        }
        assert(app@ == changed[i]);
        r.push(app);
        assert(model::app_views(r@) =~= model::app_views(before).push(app@));
        assert(changed.take(i + 1) =~= changed.take(i).push(changed[i]));
    }
    assert(changed.take(changed.len() as int) =~= changed);
    r
}

/// The names of apps.
pub open spec fn names(apps: Seq<AppView>) -> Seq<Seq<char>> {
    apps.map_values(|a: AppView| a.name)
}

/// Where the first app of a name stands, or the length where there is none.
pub open spec fn place_of(apps: Seq<AppView>, name: Seq<char>) -> int {
    text::first_index(names(apps), name)
}

/// The apps after the first of a name was resumed, with another number of instances where
/// one is given.
pub open spec fn started(apps: Seq<AppView>, name: Seq<char>, instances: Option<usize>) -> Seq<AppView> {
    let i = place_of(apps, name);
    let app = apps[i];
    apps.update(
        i,
        AppView {
            instances: match instances {
                Some(n) => n as nat,
                None => app.instances,
            },
            paused: false,
            ..app
        },
    )
}

/// Finds the first app of a name.
pub fn find_named(apps: &Vec<AppConfig>, name: &str) -> (r: usize)
    ensures
        r == place_of(model::app_views(apps@), name@),
        r <= apps@.len(),
{
    let ghost all = names(model::app_views(apps@));
    let mut i: usize = 0;
    while i < apps.len() && !text_eq(apps[i].name.as_str(), name)
        invariant
            i <= apps@.len(),
            all == names(model::app_views(apps@)),
            forall|k: int| 0 <= k < i ==> all[k] != name@,
        decreases apps@.len() - i,
    {
        assert(all[i as int] == apps@[i as int].name@);
        i += 1;
    }
    proof {
        if i < apps@.len() {
            assert(all[i as int] == apps@[i as int].name@);
        }
        text::first_index_is(all, name@, i as int);
    }
    i
}

/// Resumes the app at a place, with another number of instances where one is given.
pub fn start_at(apps: Vec<AppConfig>, at: usize, instances: Option<usize>) -> (r: Vec<AppConfig>)
    requires
        at < apps@.len(),
    ensures
        ({
            let app = model::app_views(apps@)[at as int];
            model::app_views(r@) == model::app_views(apps@).update(
                at as int,
                AppView {
                    instances: match instances {
                        Some(n) => n as nat,
                        None => app.instances,
                    },
                    paused: false,
                    ..app
                },
            )
        }),
{
    let mut apps = apps;
    let ghost before = apps@;
    let mut app = apps[at].clone();
    if let Some(n) = instances {
        app.instances = n;
    }
    app.paused = false;
    apps.set(at, app);
    assert(model::app_views(apps@) =~= model::app_views(before).update(at as int, app@));
    apps
}

/// Dropping a name leaves no app of it, and every other app.
pub proof fn dropped_name_is_gone(apps: Seq<AppView>, name: Seq<char>)
    ensures
        !model::has_name(model::without_name(apps, name), name),
        forall|i: int|
            0 <= i < apps.len() && (#[trigger] apps[i]).name != name ==> model::without_name(apps, name).contains(
                apps[i],
            ),
        forall|i: int|
            0 <= i < model::without_name(apps, name).len() ==> apps.contains(
                #[trigger] model::without_name(apps, name)[i],
            ),
{
    let f = |a: AppView| a.name != name;
    let kept = apps.filter(f);
    assert forall|i: int| 0 <= i < kept.len() implies (#[trigger] kept[i]).name != name by {
        assert(f(kept[i]));
    }
    assert forall|i: int|
        0 <= i < apps.len() && (#[trigger] apps[i]).name != name implies kept.contains(apps[i]) by {
        assert(f(apps[i]));
    }
    assert forall|i: int| 0 <= i < kept.len() implies apps.contains(#[trigger] kept[i]) by {
        apps.lemma_filter_contains_rev(f, kept[i]);
    }
}

/// Where names are distinct, they stay so when some apps are left out.
pub proof fn filter_keeps_distinct(apps: Seq<AppView>, f: spec_fn(AppView) -> bool)
    requires
        model::distinct_names(apps),
    ensures
        model::distinct_names(apps.filter(f)),
        forall|i: int|
            0 <= i < apps.filter(f).len() ==> apps.contains(#[trigger] apps.filter(f)[i]),
    decreases apps.len(),
{
    reveal(Seq::filter);
    if apps.len() > 0 {
        let t = apps.drop_last();
        assert(model::distinct_names(t)) by {
            assert forall|i: int, j: int|
                0 <= i < j < t.len() implies #[trigger] t[i].name != #[trigger] t[j].name by {
                assert(apps[i].name != apps[j].name);
            }
        }
        filter_keeps_distinct(t, f);
        let q = t.filter(f);
        let r = apps.filter(f);
        assert forall|i: int|
            0 <= i < q.len() implies apps.contains(#[trigger] q[i]) && q[i].name != apps.last().name by {
            assert(t.contains(q[i]));
            let k = choose|k: int| 0 <= k < t.len() && t[k] == q[i];
            assert(apps[k] == q[i]);
            assert(apps[k].name != apps[apps.len() - 1].name);
        }
        assert forall|i: int| 0 <= i < r.len() implies apps.contains(#[trigger] r[i]) by {
            if i < q.len() {
                assert(r[i] == q[i]);
            } else {
                assert(apps[apps.len() - 1] == r[i]);
            }
        }
        assert forall|i: int, j: int|
            0 <= i < j < r.len() implies #[trigger] r[i].name != #[trigger] r[j].name by {
            assert(r[i] == q[i]);
            if j < q.len() {
                assert(r[j] == q[j]);
            }
        }
    }
}

/// Registering an app keeps names distinct: the app is there once, and last.
pub proof fn registering_keeps_distinct(apps: Seq<AppView>, app: AppView)
    requires
        model::distinct_names(apps),
    ensures
        model::distinct_names(with_app(apps, app)),
        with_app(apps, app).last() == app,
{
    filter_keeps_distinct(apps, |a: AppView| a.name != app.name);
    dropped_name_is_gone(apps, app.name);
    let kept = model::without_name(apps, app.name);
    let r = with_app(apps, app);
    assert forall|i: int, j: int|
        0 <= i < j < r.len() implies #[trigger] r[i].name != #[trigger] r[j].name by {
        assert(r[i] == kept[i]);
        if j < kept.len() {
            assert(r[j] == kept[j]);
        }
    }
}

/// Registering apps one by one keeps names distinct, whatever the names of those are.
pub proof fn registering_all_keeps_distinct(apps: Seq<AppView>, more: Seq<AppView>)
    requires
        model::distinct_names(apps),
    ensures
        model::distinct_names(with_apps(apps, more)),
    decreases more.len(),
{
    if more.len() > 0 {
        registering_all_keeps_distinct(apps, more.drop_last());
        registering_keeps_distinct(with_apps(apps, more.drop_last()), more.last());
    }
}

/// Pausing and resuming change neither the number of apps nor anything else of them.
pub proof fn pausing_keeps_the_rest(apps: Seq<AppView>, name: Seq<char>, paused: bool)
    ensures
        names(named_paused(apps, name, paused)) == names(apps),
        names(all_paused(apps, paused)) == names(apps),
        model::distinct_names(apps) ==> model::distinct_names(named_paused(apps, name, paused)),
        model::distinct_names(apps) ==> model::distinct_names(all_paused(apps, paused)),
        forall|i: int|
            0 <= i < apps.len() ==> with_pause(#[trigger] named_paused(apps, name, paused)[i], apps[i].paused) == apps[i],
        forall|i: int|
            0 <= i < apps.len() ==> with_pause(#[trigger] all_paused(apps, paused)[i], apps[i].paused) == apps[i],
{
    assert(names(named_paused(apps, name, paused)) =~= names(apps));
    assert(names(all_paused(apps, paused)) =~= names(apps));
    let a = named_paused(apps, name, paused);
    let b = all_paused(apps, paused);
    if model::distinct_names(apps) {
        assert forall|i: int, j: int|
            0 <= i < j < a.len() implies #[trigger] a[i].name != #[trigger] a[j].name by {
            assert(apps[i].name != apps[j].name);
        }
        assert forall|i: int, j: int|
            0 <= i < j < b.len() implies #[trigger] b[i].name != #[trigger] b[j].name by {
            assert(apps[i].name != apps[j].name);
        }
    }
}

/// Starting an app changes no name.
pub proof fn starting_keeps_names(apps: Seq<AppView>, name: Seq<char>, instances: Option<usize>)
    requires
        model::has_name(apps, name),
    ensures
        0 <= place_of(apps, name) < apps.len(),
        apps[place_of(apps, name)].name == name,
        names(started(apps, name, instances)) == names(apps),
        model::distinct_names(apps) ==> model::distinct_names(started(apps, name, instances)),
{
    let all = names(apps);
    text::first_index_properties(all, name);
    let i = choose|i: int| 0 <= i < apps.len() && #[trigger] apps[i].name == name;
    assert(all[i] == name);
    let p = place_of(apps, name);
    assert(all[p] == apps[p].name);
    let r = started(apps, name, instances);
    assert(names(r) =~= all);
    if model::distinct_names(apps) {
        assert forall|i: int, j: int|
            0 <= i < j < r.len() implies #[trigger] r[i].name != #[trigger] r[j].name by {
            assert(apps[i].name != apps[j].name);
        }
    }
}

/// Stopping an app and starting it again leaves everything as it was, but for the app being
/// resumed. No other app may have its name.
pub proof fn stop_then_start_resumes(apps: Seq<AppView>, name: Seq<char>)
    requires
        model::has_name(apps, name),
        forall|i: int, j: int|
            0 <= i < j < apps.len() && (#[trigger] apps[i]).name == name ==> (#[trigger] apps[j]).name != name,
    ensures
        started(named_paused(apps, name, true), name, None) == named_paused(apps, name, false),
{
    let stopped = named_paused(apps, name, true);
    pausing_keeps_the_rest(apps, name, true);
    starting_keeps_names(apps, name, None);
    let p = place_of(apps, name);
    assert(place_of(stopped, name) == p);
    let r = started(stopped, name, None);
    let expected = named_paused(apps, name, false);
    assert forall|i: int| 0 <= i < apps.len() implies r[i] == expected[i] by {
        if i < p {
            assert(apps[i].name == name ==> apps[p].name != name);
        }
        if p < i {
            assert(apps[i].name != name);
        }
    }
    assert(r =~= expected);
}

/// Apps with distinct names that are registered one by one come last, in their order, after
/// the apps of other names.
pub proof fn registered_apps_come_last(apps: Seq<AppView>, more: Seq<AppView>)
    requires
        model::distinct_names(more),
    ensures
        with_apps(apps, more) == apps.filter(|a: AppView| !model::has_name(more, a.name)) + more,
    decreases more.len(),
{
    if more.len() == 0 {
        let f = |a: AppView| !model::has_name(more, a.name);
        filter_all(apps, f);
        assert(with_apps(apps, more) =~= apps.filter(f) + more);
    } else {
        let t = more.drop_last();
        let last = more.last();
        assert(model::distinct_names(t)) by {
            assert forall|i: int, j: int|
                0 <= i < j < t.len() implies #[trigger] t[i].name != #[trigger] t[j].name by {
                assert(more[i].name != more[j].name);
            }
        }
        registered_apps_come_last(apps, t);
        let f = |a: AppView| !model::has_name(t, a.name);
        let g = |a: AppView| a.name != last.name;
        let h = |a: AppView| !model::has_name(more, a.name);
        Seq::filter_distributes_over_add(apps.filter(f), t, g);
        assert forall|i: int| 0 <= i < t.len() implies g(#[trigger] t[i]) by {
            assert(more[i].name != more[more.len() - 1].name);
        }
        filter_all(t, g);
        assert forall|a: AppView| #[trigger] h(a) == (f(a) && g(a)) by {
            if model::has_name(more, a.name) {
                let k = choose|k: int| 0 <= k < more.len() && #[trigger] more[k].name == a.name;
                if k < t.len() {
                    assert(t[k].name == a.name);
                }
            }
            if model::has_name(t, a.name) {
                let k = choose|k: int| 0 <= k < t.len() && #[trigger] t[k].name == a.name;
                assert(more[k].name == a.name);
            }
            if a.name == last.name {
                assert(more[more.len() - 1].name == a.name);
            }
        }
        filter_twice(apps, f, g, h);
        assert(with_apps(apps, more) == (apps.filter(f) + t).filter(g).push(last));
        assert(with_apps(apps, more) =~= apps.filter(h) + more);
    }
}

proof fn filter_all(s: Seq<AppView>, f: spec_fn(AppView) -> bool)
    requires
        forall|i: int| 0 <= i < s.len() ==> f(#[trigger] s[i]),
    ensures
        s.filter(f) == s,
    decreases s.len(),
{
    reveal(Seq::filter);
    if s.len() > 0 {
        let t = s.drop_last();
        assert forall|i: int| 0 <= i < t.len() implies f(#[trigger] t[i]) by {
            assert(t[i] == s[i]);
        }
        filter_all(t, f);
        assert(f(s[s.len() - 1]));
        assert(s.filter(f) =~= s);
    } else {
        assert(s.filter(f) =~= s);
    }
}

proof fn filter_twice(
    s: Seq<AppView>,
    f: spec_fn(AppView) -> bool,
    g: spec_fn(AppView) -> bool,
    h: spec_fn(AppView) -> bool,
)
    requires
        forall|a: AppView| #[trigger] h(a) == (f(a) && g(a)),
    ensures
        s.filter(f).filter(g) == s.filter(h),
    decreases s.len(),
{
    reveal(Seq::filter);
    if s.len() > 0 {
        filter_twice(s.drop_last(), f, g, h);
        let last = s.last();
        assert(h(last) == (f(last) && g(last)));
        if f(last) {
            let front = s.drop_last().filter(f);
            assert(s.filter(f) == front.push(last));
            assert(front.push(last).drop_last() =~= front);
        }
    }
}

/// Where apps that are not paused are registered, no app of their names is paused then, and
/// each of their names is there.
pub proof fn registered_apps_stay_resumed(apps: Seq<AppView>, more: Seq<AppView>)
    requires
        forall|i: int| 0 <= i < more.len() ==> !(#[trigger] more[i]).paused,
    ensures
        forall|k: int|
            0 <= k < with_apps(apps, more).len() && model::has_name(
                more,
                (#[trigger] with_apps(apps, more)[k]).name,
            ) ==> !with_apps(apps, more)[k].paused,
        forall|i: int|
            0 <= i < more.len() ==> model::has_name(with_apps(apps, more), (#[trigger] more[i]).name),
    decreases more.len(),
{
    if more.len() > 0 {
        let t = more.drop_last();
        let last = more.last();
        assert forall|i: int| 0 <= i < t.len() implies !(#[trigger] t[i]).paused by {
            assert(t[i] == more[i]);
        }
        registered_apps_stay_resumed(apps, t);
        let before = with_apps(apps, t);
        let kept = model::without_name(before, last.name);
        let r = with_apps(apps, more);
        dropped_name_is_gone(before, last.name);
        assert(!more[more.len() - 1].paused);
        assert forall|k: int| 0 <= k < r.len() && model::has_name(more, (#[trigger] r[k]).name) implies !r[k].paused by {
            if k < kept.len() {
                assert(r[k] == kept[k]);
                assert(before.contains(kept[k]));
                let b = choose|b: int| 0 <= b < before.len() && before[b] == kept[k];
                assert(kept[k].name != last.name);
                let i = choose|i: int| 0 <= i < more.len() && #[trigger] more[i].name == r[k].name;
                assert(t[i].name == before[b].name);
            }
        }
        assert forall|i: int| 0 <= i < more.len() implies model::has_name(r, (#[trigger] more[i]).name) by {
            if more[i].name == last.name {
                assert(r[r.len() - 1].name == last.name);
            } else {
                assert(t[i] == more[i]);
                let b = choose|b: int| 0 <= b < before.len() && #[trigger] before[b].name == t[i].name;
                assert(kept.contains(before[b]));
                let k = choose|k: int| 0 <= k < kept.len() && kept[k] == before[b];
                assert(r[k].name == more[i].name);
            }
        }
    }
}

/// An export that is imported in place of everything gives the same apps back.
pub proof fn export_then_import_restores(apps: Seq<AppView>)
    requires
        model::distinct_names(apps),
    ensures
        with_apps(Seq::empty(), selection(apps, None)) == apps,
{
    registered_apps_come_last(Seq::empty(), apps);
    reveal(Seq::filter);
    assert(Seq::<AppView>::empty().filter(|a: AppView| !model::has_name(apps, a.name)) =~= Seq::empty());
    assert(Seq::<AppView>::empty() + apps =~= apps);
}

/// An export of everything that is imported on top changes nothing.
pub proof fn importing_an_export_changes_nothing(apps: Seq<AppView>)
    requires
        model::distinct_names(apps),
    ensures
        with_apps(apps, selection(apps, None)) == apps,
{
    registered_apps_come_last(apps, apps);
    let f = |a: AppView| !model::has_name(apps, a.name);
    let left = apps.filter(f);
    assert(left.len() == 0) by {
        if left.len() > 0 {
            assert(f(left[0]));
            apps.lemma_filter_contains_rev(f, left[0]);
            let k = choose|k: int| 0 <= k < apps.len() && apps[k] == left[0];
            assert(apps[k].name == left[0].name);
        }
    }
    assert(left + apps =~= apps);
}

/// Dropping the apps of a name drops no other, and changes none.
pub proof fn dropping_keeps_the_rest(apps: Seq<AppView>, name: Seq<char>, app: AppView)
    ensures
        model::without_name(apps, name).contains(app) <==> app.name != name && apps.contains(app),
        model::only_name(apps, name).contains(app) <==> app.name == name && apps.contains(app),
{
    let f = |a: AppView| a.name != name;
    let g = |a: AppView| a.name == name;
    if apps.filter(f).contains(app) {
        let k = choose|k: int| 0 <= k < apps.filter(f).len() && apps.filter(f)[k] == app;
        assert(f(apps.filter(f)[k]));
        apps.lemma_filter_contains_rev(f, app);
    }
    if apps.filter(g).contains(app) {
        let k = choose|k: int| 0 <= k < apps.filter(g).len() && apps.filter(g)[k] == app;
        assert(g(apps.filter(g)[k]));
        apps.lemma_filter_contains_rev(g, app);
    }
    if apps.contains(app) {
        let k = choose|k: int| 0 <= k < apps.len() && apps[k] == app;
        if app.name != name {
            assert(f(apps[k]));
        } else {
            assert(g(apps[k]));
        }
    }
}

/// Pausing or resuming changes no app but those that are meant, and nothing else about them.
pub proof fn pausing_changes_nothing_else(apps: Seq<AppView>, name: Option<Seq<char>>, paused: bool)
    ensures
        ({
            let r = match name {
                Some(name) => named_paused(apps, name, paused),
                None => all_paused(apps, paused),
            };
            &&& r.len() == apps.len()
            &&& forall|i: int|
                0 <= i < apps.len() ==> (#[trigger] r[i]).name == apps[i].name && r[i].cmd == apps[i].cmd
                    && r[i].args == apps[i].args && r[i].instances == apps[i].instances && r[i].created_at
                    == apps[i].created_at && r[i].env_file == apps[i].env_file && r[i].clean_env
                    == apps[i].clean_env && r[i].paused == (if name is None || name == Some(apps[i].name) {
                    paused
                } else {
                    apps[i].paused
                })
        }),
{
}

/// Starting resumes the first app of the name, with the number of instances that is given or
/// with its own. Nothing else about it changes, and nothing about any other.
pub proof fn starting_changes_nothing_else(
    apps: Seq<AppView>,
    name: Seq<char>,
    instances: Option<usize>,
    i: int,
)
    requires
        0 <= i < apps.len(),
        forall|k: int| 0 <= k < i ==> (#[trigger] apps[k]).name != name,
        apps[i].name == name,
    ensures
        ({
            let r = started(apps, name, instances);
            &&& r.len() == apps.len()
            &&& forall|k: int| 0 <= k < apps.len() && k != i ==> #[trigger] r[k] == apps[k]
            &&& r[i].name == apps[i].name && r[i].cmd == apps[i].cmd && r[i].args == apps[i].args
            &&& r[i].created_at == apps[i].created_at && r[i].env_file == apps[i].env_file
            &&& r[i].clean_env == apps[i].clean_env
            &&& !r[i].paused
            &&& instances matches Some(n) ==> r[i].instances == n
            &&& instances is None ==> r[i].instances == apps[i].instances
        }),
{
    let all = names(apps);
    assert forall|k: int| 0 <= k < i implies all[k] != name by {
        assert(all[k] == apps[k].name);
    }
    assert(all[i] == name);
    text::first_index_is(all, name, i);
}

/// What is selected for a name are the apps of that name, as they are, and without a name all
/// of them.
pub proof fn selecting_changes_nothing(apps: Seq<AppView>, name: Seq<char>, app: AppView)
    ensures
        selection(apps, None) == apps,
        selection(apps, Some(name)).contains(app) <==> app.name == name && apps.contains(app),
{
    dropping_keeps_the_rest(apps, name, app);
}

/// Registering apps one by one leaves the others as they were, and takes those of the same
/// name from the apps that are registered.
pub proof fn registering_all_takes_each(apps: Seq<AppView>, more: Seq<AppView>, app: AppView)
    ensures
        !model::has_name(more, app.name) ==> (with_apps(apps, more).contains(app) <==> apps.contains(app)),
        model::has_name(more, app.name) && with_apps(apps, more).contains(app) ==> more.contains(app),
    decreases more.len(),
{
    if more.len() > 0 {
        let front = more.drop_last();
        let last = more.last();
        let before = with_apps(apps, front);
        let rest = model::without_name(before, last.name);
        let after = with_apps(apps, more);
        registering_all_takes_each(apps, front, app);
        dropping_keeps_the_rest(before, last.name, app);
        assert(more[more.len() - 1].name == last.name);
        if after.contains(app) {
            let k = choose|k: int| 0 <= k < after.len() && after[k] == app;
            if k < rest.len() {
                assert(rest[k] == app);
                assert(rest.contains(app));
            } else {
                assert(more[more.len() - 1] == app);
            }
        }
        if rest.contains(app) {
            let k = choose|k: int| 0 <= k < rest.len() && rest[k] == app;
            assert(after[k] == app);
        }
        if model::has_name(front, app.name) {
            let k = choose|k: int| 0 <= k < front.len() && #[trigger] front[k].name == app.name;
            assert(more[k].name == app.name);
        }
        if front.contains(app) {
            let k = choose|k: int| 0 <= k < front.len() && front[k] == app;
            assert(more[k] == app);
        }
        if model::has_name(more, app.name) && app.name != last.name {
            let k = choose|k: int| 0 <= k < more.len() && #[trigger] more[k].name == app.name;
            assert(front[k].name == app.name);
        }
    }
}

/// Dropping or keeping the apps of a name keeps the order of those that stay.
pub proof fn dropping_keeps_order(a: Seq<AppView>, b: Seq<AppView>, name: Seq<char>, app: AppView)
    ensures
        model::without_name(a + b, name) == model::without_name(a, name) + model::without_name(b, name),
        model::only_name(a + b, name) == model::only_name(a, name) + model::only_name(b, name),
        model::without_name(seq![app], name) == (if app.name == name {
            Seq::empty()
        } else {
            seq![app]
        }),
        model::only_name(seq![app], name) == (if app.name == name {
            seq![app]
        } else {
            Seq::empty()
        }),
{
    let f = |x: AppView| x.name != name;
    let g = |x: AppView| x.name == name;
    Seq::filter_distributes_over_add(a, b, f);
    Seq::filter_distributes_over_add(a, b, g);
    reveal(Seq::filter);
    let one = seq![app];
    assert(one.drop_last() =~= Seq::empty());
    assert(one.last() == app);
    assert(one.drop_last().filter(f) =~= Seq::empty());
    assert(one.drop_last().filter(g) =~= Seq::empty());
    assert(Seq::<AppView>::empty().push(app) =~= one);
}

} // verus!
