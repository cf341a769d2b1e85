//! What the supervisor remembers: the registered apps, and the processes it started.
use vstd::prelude::*;
use vstd::string::*;

use crate::text;
use crate::text::{copy_texts, text_before, text_eq};

verus! {

/// A registered app.
#[derive(Debug)]
pub struct AppConfig {
    pub name: String,
    pub cmd: String,
    pub args: Vec<String>,
    pub instances: usize,
    pub created_at: u64,
    pub env_file: Option<String>,
    pub clean_env: bool,
    pub paused: bool,
}

/// What an `AppConfig` says.
pub struct AppView {
    pub name: Seq<char>,
    pub cmd: Seq<char>,
    pub args: Seq<Seq<char>>,
    pub instances: nat,
    pub created_at: nat,
    pub env_file: Option<Seq<char>>,
    pub clean_env: bool,
    pub paused: bool,
}

/// The text of an optional string.
pub open spec fn opt_text(s: Option<String>) -> Option<Seq<char>> {
    match s {
        Some(s) => Some(s@),
        None => None,
    }
}

impl View for AppConfig {
    type V = AppView;

    open spec fn view(&self) -> AppView {
        AppView {
            name: self.name@,
            cmd: self.cmd@,
            args: text::texts(self.args@),
            instances: self.instances as nat,
            created_at: self.created_at as nat,
            env_file: opt_text(self.env_file),
            clean_env: self.clean_env,
            paused: self.paused,
        }
    }
}

impl Clone for AppConfig {
    fn clone(&self) -> (r: Self)
        ensures
            r@ == self@,
    {
        AppConfig {
            name: self.name.clone(),
            cmd: self.cmd.clone(),
            args: copy_texts(&self.args),
            instances: self.instances,
            created_at: self.created_at,
            env_file: self.env_file.clone(),
            clean_env: self.clean_env,
            paused: self.paused,
        }
    }
}

/// All registered apps, in the order in which they were registered.
#[derive(Debug)]
pub struct State {
    pub apps: Vec<AppConfig>,
}

/// What a list of registered apps says.
pub open spec fn app_views(apps: Seq<AppConfig>) -> Seq<AppView> {
    apps.map_values(|a: AppConfig| a@)
}

impl View for State {
    type V = Seq<AppView>;

    open spec fn view(&self) -> Seq<AppView> {
        app_views(self.apps@)
    }
}

impl Default for State {
    fn default() -> (r: Self)
        ensures
            r@ == Seq::<AppView>::empty(),
    {
        let r = State { apps: Vec::new() };
        assert(r@ == Seq::<AppView>::empty());
        r
    }
}

/// No two apps have the same name.
pub open spec fn distinct_names(apps: Seq<AppView>) -> bool {
    forall|i: int, j: int|
        0 <= i < j < apps.len() ==> #[trigger] apps[i].name != #[trigger] apps[j].name
}

/// Some app has this name.
pub open spec fn has_name(apps: Seq<AppView>, name: Seq<char>) -> bool {
    exists|i: int| 0 <= i < apps.len() && #[trigger] apps[i].name == name
}

/// The apps that have another name.
pub open spec fn without_name(apps: Seq<AppView>, name: Seq<char>) -> Seq<AppView> {
    apps.filter(|a: AppView| a.name != name)
}

/// The apps that have this name.
pub open spec fn only_name(apps: Seq<AppView>, name: Seq<char>) -> Seq<AppView> {
    apps.filter(|a: AppView| a.name == name)
}

/// What is known of one instance of an app.
#[derive(Debug, Clone, Copy, PartialEq, Eq)]
pub struct InstanceRuntime {
    /// The process, or zero where none runs.
    pub pid: i32,
    /// When it was started, in Unix seconds, or zero where it never was.
    pub started_at: u64,
    pub restarts: u64,
    pub last_exit_at: Option<u64>,
    pub last_exit_code: Option<i32>,
    pub last_exit_signal: Option<i32>,
}

/// An instance that was never started.
pub open spec fn fresh_instance() -> InstanceRuntime {
    InstanceRuntime {
        pid: 0,
        started_at: 0,
        restarts: 0,
        last_exit_at: None,
        last_exit_code: None,
        last_exit_signal: None,
    }
}

impl Default for InstanceRuntime {
    fn default() -> (r: Self)
        ensures
            r == fresh_instance(),
    {
        InstanceRuntime {
            pid: 0,
            started_at: 0,
            restarts: 0,
            last_exit_at: None,
            last_exit_code: None,
            last_exit_signal: None,
        }
    }
}

/// Pairs of a key and a value, read as a map.
pub open spec fn pairs_map<K, V>(s: Seq<(K, V)>) -> Map<K, V> {
    Map::new(
        |k: K| exists|i: int| 0 <= i < s.len() && (#[trigger] s[i]).0 == k,
        |k: K| s[choose|i: int| 0 <= i < s.len() && (#[trigger] s[i]).0 == k].1,
    )
}

/// No key occurs twice.
pub open spec fn distinct_keys<K, V>(s: Seq<(K, V)>) -> bool {
    forall|i: int, j: int| 0 <= i < j < s.len() ==> (#[trigger] s[i]).0 != (#[trigger] s[j]).0
}

/// Of pairs with distinct keys, the map holds each pair and nothing else.
pub proof fn pairs_map_properties<K, V>(s: Seq<(K, V)>)
    requires
        distinct_keys(s),
    ensures
        forall|i: int|
            0 <= i < s.len() ==> pairs_map(s).dom().contains((#[trigger] s[i]).0) && pairs_map(
                s,
            )[s[i].0] == s[i].1,
        forall|k: K|
            #[trigger] pairs_map(s).dom().contains(k) ==> exists|i: int|
                0 <= i < s.len() && (#[trigger] s[i]).0 == k,
{
    assert forall|i: int| 0 <= i < s.len() implies pairs_map(s)[(#[trigger] s[i]).0] == s[i].1 by {
        let k = s[i].0;
        let j = choose|j: int| 0 <= j < s.len() && (#[trigger] s[j]).0 == k;
        assert(0 <= j < s.len() && s[j].0 == k);
        if i < j {
            assert(s[i].0 != s[j].0);
        }
        if j < i {
            assert(s[j].0 != s[i].0);
        }
    }
}

/// A new key among pairs adds to the map.
pub proof fn pairs_map_insert<K, V>(s: Seq<(K, V)>, at: int, k: K, v: V)
    requires
        distinct_keys(s),
        0 <= at <= s.len(),
        !pairs_map(s).dom().contains(k),
    ensures
        distinct_keys(s.insert(at, (k, v))),
        pairs_map(s.insert(at, (k, v))) == pairs_map(s).insert(k, v),
{
    let t = s.insert(at, (k, v));
    let pos = |i: int| if i < at { i } else { i + 1 };
    assert forall|i: int, j: int|
        0 <= i < j < t.len() implies (#[trigger] t[i]).0 != (#[trigger] t[j]).0 by {
        let a = if i < at { i } else { i - 1 };
        let b = if j < at { j } else { j - 1 };
        if i == at {
            assert(t[j] == s[b]);
        } else if j == at {
            assert(t[i] == s[a]);
        } else {
            assert(t[i] == s[a] && t[j] == s[b]);
        }
    }
    pairs_map_properties(s);
    pairs_map_properties(t);
    let m = pairs_map(s).insert(k, v);
    assert forall|x: K| pairs_map(t).dom().contains(x) <==> m.dom().contains(x) by {
        if m.dom().contains(x) {
            if x == k {
                assert(t[at].0 == k);
            } else {
                let i = choose|i: int| 0 <= i < s.len() && (#[trigger] s[i]).0 == x;
                assert(t[pos(i)] == s[i]);
            }
        }
        if pairs_map(t).dom().contains(x) && x != k {
            let i = choose|i: int| 0 <= i < t.len() && (#[trigger] t[i]).0 == x;
            let a = if i < at { i } else { i - 1 };
            assert(t[i] == s[a]);
        }
    }
    assert forall|x: K| m.dom().contains(x) implies pairs_map(t)[x] == m[x] by {
        if x == k {
            assert(t[at].0 == k);
        } else {
            let i = choose|i: int| 0 <= i < s.len() && (#[trigger] s[i]).0 == x;
            assert(t[pos(i)] == s[i]);
        }
    }
    assert(pairs_map(t) =~= m);
}

/// A new value for a key that is there changes the map at that key.
pub proof fn pairs_map_update<K, V>(s: Seq<(K, V)>, at: int, v: V)
    requires
        distinct_keys(s),
        0 <= at < s.len(),
    ensures
        distinct_keys(s.update(at, (s[at].0, v))),
        pairs_map(s.update(at, (s[at].0, v))) == pairs_map(s).insert(s[at].0, v),
{
    let k = s[at].0;
    let t = s.update(at, (k, v));
    assert(forall|i: int| 0 <= i < s.len() ==> (#[trigger] t[i]).0 == s[i].0);
    pairs_map_properties(s);
    pairs_map_properties(t);
    let m = pairs_map(s).insert(k, v);
    assert forall|x: K| pairs_map(t).dom().contains(x) <==> m.dom().contains(x) by {
        if m.dom().contains(x) {
            if x == k {
                assert(t[at].0 == k);
            } else {
                let i = choose|i: int| 0 <= i < s.len() && (#[trigger] s[i]).0 == x;
                assert(t[i].0 == x);
            }
        }
        if pairs_map(t).dom().contains(x) {
            let i = choose|i: int| 0 <= i < t.len() && (#[trigger] t[i]).0 == x;
            assert(s[i].0 == x);
        }
    }
    assert forall|x: K| m.dom().contains(x) implies pairs_map(t)[x] == m[x] by {
        if x == k {
            assert(t[at].0 == k);
        } else {
            let i = choose|i: int| 0 <= i < s.len() && (#[trigger] s[i]).0 == x;
            assert(t[i] == s[i]);
        }
    }
    assert(pairs_map(t) =~= m);
}

/// A pair that goes takes its key from the map.
pub proof fn pairs_map_remove<K, V>(s: Seq<(K, V)>, at: int)
    requires
        distinct_keys(s),
        0 <= at < s.len(),
    ensures
        distinct_keys(s.remove(at)),
        pairs_map(s.remove(at)) == pairs_map(s).remove(s[at].0),
{
    let k = s[at].0;
    let t = s.remove(at);
    let up = |i: int| if i < at { i } else { i + 1 };
    assert(forall|i: int| 0 <= i < t.len() ==> #[trigger] t[i] == s[up(i)]);
    pairs_map_properties(s);
    pairs_map_properties(t);
    let m = pairs_map(s).remove(k);
    assert forall|x: K| pairs_map(t).dom().contains(x) <==> m.dom().contains(x) by {
        if m.dom().contains(x) {
            let i = choose|i: int| 0 <= i < s.len() && (#[trigger] s[i]).0 == x;
            let j = if i < at { i } else { i - 1 };
            assert(t[j] == s[i]);
        }
        if pairs_map(t).dom().contains(x) {
            let i = choose|i: int| 0 <= i < t.len() && (#[trigger] t[i]).0 == x;
            assert(t[i] == s[up(i)]);
            if x == k {
                if up(i) < at {
                    assert(s[up(i)].0 != s[at].0);
                } else {
                    assert(s[at].0 != s[up(i)].0);
                }
            }
        }
    }
    assert forall|x: K| m.dom().contains(x) implies pairs_map(t)[x] == m[x] by {
        let i = choose|i: int| 0 <= i < s.len() && (#[trigger] s[i]).0 == x;
        let j = if i < at { i } else { i - 1 };
        assert(t[j] == s[i]);
    }
    assert(pairs_map(t) =~= m);
}

/// The instances of one app, in ascending order of their index.
#[derive(Debug)]
pub struct AppRuntime {
    pub instances: Vec<(usize, InstanceRuntime)>,
}

impl View for AppRuntime {
    type V = Seq<(usize, InstanceRuntime)>;

    open spec fn view(&self) -> Seq<(usize, InstanceRuntime)> {
        self.instances@
    }
}

/// The indices go up.
pub open spec fn ascending(s: Seq<(usize, InstanceRuntime)>) -> bool {
    forall|i: int, j: int| 0 <= i < j < s.len() ==> (#[trigger] s[i]).0 < (#[trigger] s[j]).0
}

impl AppRuntime {
    /// Each index occurs once, and the indices go up.
    pub open spec fn wf(self) -> bool {
        ascending(self@)
    }

    /// The instances by index.
    pub open spec fn map(self) -> Map<usize, InstanceRuntime> {
        pairs_map(self@)
    }

    /// Where an index stands, or where it would have to.
    fn position(&self, index: usize) -> (r: usize)
        requires
            self.wf(),
        ensures
            r <= self@.len(),
            forall|i: int| 0 <= i < r ==> (#[trigger] self@[i]).0 < index,
            forall|i: int| r <= i < self@.len() ==> (#[trigger] self@[i]).0 >= index,
            self.map().dom().contains(index) <==> r < self@.len() && self@[r as int].0 == index,
            r < self@.len() && self@[r as int].0 == index ==> self.map()[index] == self@[r as int].1,
    {
        let mut i: usize = 0;
        while i < self.instances.len() && self.instances[i].0 < index
            invariant
                self.wf(),
                i <= self@.len(),
                forall|k: int| 0 <= k < i ==> (#[trigger] self@[k]).0 < index,
            decreases self@.len() - i,
        {
            i += 1;
        }
        proof {
            pairs_map_properties(self@);
            assert forall|k: int| i <= k < self@.len() implies (#[trigger] self@[k]).0 >= index by {
                if i < k {
                    assert(self@[i as int].0 < self@[k].0);
                }
            }
        }
        i
    }

    /// What is known of an instance.
    pub fn get(&self, index: usize) -> (r: Option<InstanceRuntime>)
        requires
            self.wf(),
        ensures
            r == (if self.map().dom().contains(index) {
                Some(self.map()[index])
            } else {
                None
            }),
    {
        let at: usize = self.position(index);
        if at < self.instances.len() && self.instances[at].0 == index {
            Some(self.instances[at].1)
        } else {
            None
        }
    }

    /// Remembers an instance in place of what was known of it.
    pub fn insert(&mut self, index: usize, inst: InstanceRuntime)
        requires
            old(self).wf(),
        ensures
            final(self).wf(),
            final(self).map() == old(self).map().insert(index, inst),
    {
        let at: usize = self.position(index);
        let ghost s = self@;
        if at < self.instances.len() && self.instances[at].0 == index {
            self.instances.set(at, (index, inst));
            proof {
                pairs_map_update(s, at as int, inst);
            }
        } else {
            self.instances.insert(at, (index, inst));
            proof {
                pairs_map_insert(s, at as int, index, inst);
            }
        }
    }
}

impl Default for AppRuntime {
    fn default() -> (r: Self)
        ensures
            r.wf(),
            r@.len() == 0,
            r.map() == Map::<usize, InstanceRuntime>::empty(),
    {
        let r = AppRuntime { instances: Vec::new() };
        assert(r.map() =~= Map::empty());
        r
    }
}

/// Whether two lists of pairs have the same length and the same keys.
pub open spec fn same_keys<K, V, W>(s: Seq<(K, V)>, t: Seq<(K, W)>) -> bool {
    s.len() == t.len() && forall|i: int|
        0 <= i < s.len() ==> (#[trigger] s[i]).0 == (#[trigger] t[i]).0
}

/// What a `Runtime` says: the instances of each app.
pub type RuntimeView = Seq<(Seq<char>, Seq<(usize, InstanceRuntime)>)>;

/// The processes of all apps, in the order of the names of the apps.
#[derive(Debug)]
pub struct Runtime {
    pub apps: Vec<(String, AppRuntime)>,
}

/// What a list of apps with their instances says.
pub open spec fn entry_views(s: Seq<(String, AppRuntime)>) -> RuntimeView {
    s.map_values(|e: (String, AppRuntime)| (e.0@, e.1@))
}

impl View for Runtime {
    type V = RuntimeView;

    open spec fn view(&self) -> RuntimeView {
        entry_views(self.apps@)
    }
}

/// The names go up, and so do the indices of each app.
pub open spec fn runtime_wf(s: RuntimeView) -> bool {
    &&& forall|i: int, j: int|
        0 <= i < j < s.len() ==> text::text_lt((#[trigger] s[i]).0, (#[trigger] s[j]).0)
    &&& forall|i: int| 0 <= i < s.len() ==> ascending((#[trigger] s[i]).1)
}

proof fn runtime_keys_distinct(s: RuntimeView)
    requires
        runtime_wf(s),
    ensures
        distinct_keys(s),
{
    assert forall|i: int, j: int|
        0 <= i < j < s.len() implies (#[trigger] s[i]).0 != (#[trigger] s[j]).0 by {
        assert(text::text_lt(s[i].0, s[j].0));
        text::text_lt_irreflexive(s[i].0);
    }
}

impl Runtime {
    /// Each name occurs once, names and indices go up.
    pub open spec fn wf(self) -> bool {
        runtime_wf(self@)
    }

    /// The instances by the name of the app.
    pub open spec fn map(self) -> Map<Seq<char>, Seq<(usize, InstanceRuntime)>> {
        pairs_map(self@)
    }

    /// Where a name stands, or where it would have to.
    fn position(&self, name: &str) -> (r: usize)
        requires
            self.wf(),
        ensures
            r <= self@.len(),
            forall|i: int| 0 <= i < r ==> text::text_lt((#[trigger] self@[i]).0, name@),
            forall|i: int| r <= i < self@.len() ==> !text::text_lt((#[trigger] self@[i]).0, name@),
            self.map().dom().contains(name@) <==> r < self@.len() && self@[r as int].0 == name@,
            r < self@.len() && self@[r as int].0 == name@ ==> self.map()[name@] == self@[r as int].1,
    {
        let mut i: usize = 0;
        while i < self.apps.len() && text_before(self.apps[i].0.as_str(), name)
            invariant
                self.wf(),
                i <= self@.len(),
                self@.len() == self.apps@.len(),
                forall|k: int| 0 <= k < i ==> text::text_lt((#[trigger] self@[k]).0, name@),
            decreases self@.len() - i,
        {
            assert(self@[i as int].0 == self.apps@[i as int].0@);
            i += 1;
        }
        proof {
            if i < self@.len() {
                assert(self@[i as int].0 == self.apps@[i as int].0@);
            }
            runtime_keys_distinct(self@);
            pairs_map_properties(self@);
            text::text_lt_irreflexive(name@);
            assert forall|k: int|
                i <= k < self@.len() implies !text::text_lt((#[trigger] self@[k]).0, name@) by {
                if i < k && text::text_lt(self@[k].0, name@) {
                    assert(text::text_lt(self@[i as int].0, self@[k].0));
                    text::text_lt_transitive(self@[i as int].0, self@[k].0, name@);
                }
            }
            if self.map().dom().contains(name@) {
                let k = choose|k: int| 0 <= k < self@.len() && (#[trigger] self@[k]).0 == name@;
                if k > i {
                    assert(text::text_lt(self@[i as int].0, self@[k].0));
                }
            }
        }
        i
    }

    /// The instances of an app.
    pub fn get(&self, name: &str) -> (r: Option<&AppRuntime>)
        requires
            self.wf(),
        ensures
            r is Some <==> self.map().dom().contains(name@),
            r is Some ==> r->0@ == self.map()[name@] && r->0.wf(),
    {
        let at: usize = self.position(name);
        if at < self.apps.len() {
            assert(self@[at as int] == (self.apps@[at as int].0@, self.apps@[at as int].1@));
            if text_eq(self.apps[at].0.as_str(), name) {
                return Some(&self.apps[at].1);
            }
        }
        None
    }

    /// Forgets an app, and hands out what was known of it.
    pub fn remove(&mut self, name: &str) -> (r: Option<AppRuntime>)
        requires
            old(self).wf(),
        ensures
            final(self).wf(),
            final(self).map() == old(self).map().remove(name@),
            r is Some <==> old(self).map().dom().contains(name@),
            r is Some ==> r->0@ == old(self).map()[name@] && r->0.wf(),
    {
        let at: usize = self.position(name);
        let ghost s = self@;
        if at < self.apps.len() {
            assert(s[at as int] == (self.apps@[at as int].0@, self.apps@[at as int].1@));
            if text_eq(self.apps[at].0.as_str(), name) {
                let (_, rt) = self.apps.remove(at);
                proof {
                    assert(self@ =~= s.remove(at as int));
                    runtime_keys_distinct(s);
                    pairs_map_remove(s, at as int);
                }
                return Some(rt);
            }
        }
        assert(self.map().remove(name@) =~= self.map());
        None
    }

    /// Remembers the instances of an app in place of what was known of it.
    pub fn insert(&mut self, name: String, rt: AppRuntime)
        requires
            old(self).wf(),
            rt.wf(),
        ensures
            final(self).wf(),
            final(self).map() == old(self).map().insert(name@, rt@),
    {
        let at: usize = self.position(name.as_str());
        let ghost s = self@;
        let ghost n = name@;
        let ghost v = rt@;
        proof {
            runtime_keys_distinct(s);
        }
        if at < self.apps.len() {
            assert(s[at as int] == (self.apps@[at as int].0@, self.apps@[at as int].1@));
            if text_eq(self.apps[at].0.as_str(), name.as_str()) {
                self.apps.set(at, (name, rt));
                proof {
                    assert(self@ =~= s.update(at as int, (n, v)));
                    pairs_map_update(s, at as int, v);
                }
                return;
            }
        }
        self.apps.insert(at, (name, rt));
        proof {
            let t = self@;
            assert(t =~= s.insert(at as int, (n, v)));
            pairs_map_insert(s, at as int, n, v);
            assert forall|i: int, j: int| 0 <= i < j < t.len() implies text::text_lt(
                (#[trigger] t[i]).0,
                (#[trigger] t[j]).0,
            ) by {
                if i == at {
                    assert(t[j] == s[j - 1]);
                    text::text_lt_total(n, s[j - 1].0);
                    assert(!pairs_map(s).dom().contains(n));
                } else if j == at {
                    assert(t[i] == s[i]);
                } else {
                    let a = if i < at { i } else { i - 1 };
                    let b = if j < at { j } else { j - 1 };
                    assert(t[i] == s[a] && t[j] == s[b]);
                }
            }
            assert forall|i: int| 0 <= i < t.len() implies ascending((#[trigger] t[i]).1) by {
                let a = if i < at { i } else { i - 1 };
                if i != at {
                    assert(t[i] == s[a]);
                }
            }
        }
    }
}

impl Default for Runtime {
    fn default() -> (r: Self)
        ensures
            r@ == Seq::<(Seq<char>, Seq<(usize, InstanceRuntime)>)>::empty(),
            r.wf(),
    {
        let r = Runtime { apps: Vec::new() };
        assert(r@ == Seq::<(Seq<char>, Seq<(usize, InstanceRuntime)>)>::empty());
        r
    }
}

/// What the first format of the runtime file held of an app: only processes.
#[derive(Debug)]
pub struct AppRuntimeV0 {
    pub instances: Vec<(usize, i32)>,
}

/// The first format of the runtime file.
#[derive(Debug)]
pub struct RuntimeV0 {
    pub apps: Vec<(String, AppRuntimeV0)>,
}

impl View for RuntimeV0 {
    type V = Seq<(Seq<char>, Seq<(usize, i32)>)>;

    open spec fn view(&self) -> Seq<(Seq<char>, Seq<(usize, i32)>)> {
        self.apps@.map_values(|e: (String, AppRuntimeV0)| (e.0@, e.1.instances@))
    }
}

/// An instance of which only the process is known.
pub open spec fn known_pid(pid: i32) -> InstanceRuntime {
    InstanceRuntime { pid, ..fresh_instance() }
}

/// What the first format of the runtime file says, in today's terms.
pub open spec fn upgraded(old: Seq<(Seq<char>, Seq<(usize, i32)>)>) -> RuntimeView {
    old.map_values(
        |e: (Seq<char>, Seq<(usize, i32)>)| (e.0, e.1.map_values(|p: (usize, i32)| (p.0, known_pid(p.1)))),
    )
}

impl Runtime {
    /// Takes over the first format: each process is kept, and nothing else is known of it.
    pub fn from(old: RuntimeV0) -> (r: Runtime)
        ensures
            r@ == upgraded(old@),
    {
        let mut apps: Vec<(String, AppRuntime)> = Vec::new();
        let mut i: usize = 0;
        while i < old.apps.len()
            invariant
                i <= old.apps@.len(),
                apps@.len() == i,
                forall|k: int|
                    0 <= k < i ==> ((#[trigger] apps@[k]).0@, apps@[k].1@) == upgraded(old@)[k],
            decreases old.apps@.len() - i,
        {
            let src = &old.apps[i].1.instances;
            let mut instances: Vec<(usize, InstanceRuntime)> = Vec::new();
            let mut j: usize = 0;
            while j < src.len()
                invariant
                    j <= src@.len(),
                    instances@.len() == j,
                    forall|k: int|
                        0 <= k < j ==> #[trigger] instances@[k] == (src@[k].0, known_pid(src@[k].1)),
                decreases src@.len() - j,
            {
                instances.push((src[j].0, InstanceRuntime { pid: src[j].1, ..InstanceRuntime::default() }));
                j += 1;
            }
            assert(instances@ =~= upgraded(old@)[i as int].1);
            apps.push((old.apps[i].0.clone(), AppRuntime { instances }));
            i += 1;
        }
        let r = Runtime { apps };
        assert(r@ =~= upgraded(old@));
        r
    }
}

/// In the first format too, the names go up, and so do the indices of each app.
pub open spec fn first_format_wf(old: Seq<(Seq<char>, Seq<(usize, i32)>)>) -> bool {
    &&& forall|i: int, j: int|
        0 <= i < j < old.len() ==> text::text_lt((#[trigger] old[i]).0, (#[trigger] old[j]).0)
    &&& forall|i: int, j: int, k: int|
        0 <= i < old.len() && 0 <= j < k < old[i].1.len() ==> (#[trigger] old[i].1[j]).0 < (
        #[trigger] old[i].1[k]).0
}

/// Taking over the first format keeps the names and indices, and so their order.
pub proof fn upgraded_keeps_order(old: Seq<(Seq<char>, Seq<(usize, i32)>)>)
    requires
        first_format_wf(old),
    ensures
        same_keys(old, upgraded(old)),
        runtime_wf(upgraded(old)),
{
    let new = upgraded(old);
    assert forall|i: int| 0 <= i < new.len() implies ascending((#[trigger] new[i]).1) by {
        let s = new[i].1;
        assert forall|j: int, k: int|
            0 <= j < k < s.len() implies (#[trigger] s[j]).0 < (#[trigger] s[k]).0 by {
            assert(s[j].0 == old[i].1[j].0);
            assert(s[k].0 == old[i].1[k].0);
        }
    }
}

/// Taking over the first format keeps the process of each instance of each app. Nothing else
/// is known of it.
pub proof fn upgraded_keeps_processes(old: Seq<(Seq<char>, Seq<(usize, i32)>)>, i: int, j: int)
    requires
        0 <= i < old.len(),
        0 <= j < old[i].1.len(),
    ensures
        ({
            let new = upgraded(old);
            let (idx, inst) = new[i].1[j];
            &&& new.len() == old.len()
            &&& new[i].0 == old[i].0
            &&& new[i].1.len() == old[i].1.len()
            &&& idx == old[i].1[j].0
            &&& inst.pid == old[i].1[j].1
            &&& inst.started_at == 0 && inst.restarts == 0
            &&& inst.last_exit_at is None && inst.last_exit_code is None && inst.last_exit_signal is None
        }),
{
}

/// An instance that was never started has no process, no start, no restart and no exit.
pub proof fn fresh_instance_is_empty()
    ensures
        fresh_instance().pid == 0,
        fresh_instance().started_at == 0,
        fresh_instance().restarts == 0,
        fresh_instance().last_exit_at is None,
        fresh_instance().last_exit_code is None,
        fresh_instance().last_exit_signal is None,
{
}

/// What an app says is all of its fields.
pub proof fn app_says_all_of_its_fields(a: AppConfig)
    ensures
        a@.name == a.name@,
        a@.cmd == a.cmd@,
        a@.args == a.args@.map_values(|s: String| s@),
        a@.instances == a.instances,
        a@.created_at == a.created_at,
        a@.env_file is Some <==> a.env_file is Some,
        a.env_file matches Some(f) ==> a@.env_file == Some(f@),
        a@.clean_env == a.clean_env,
        a@.paused == a.paused,
{
    assert(a@.args =~= a.args@.map_values(|s: String| s@));
}

/// What a list of apps says is what each of them says, in order.
pub proof fn state_says_each_app(s: State, i: int)
    ensures
        s@.len() == s.apps@.len(),
        0 <= i < s.apps@.len() ==> s@[i] == s.apps@[i]@,
{
}

/// What is known of processes is what is known of each app, in order.
pub proof fn runtime_says_each_app(r: Runtime, i: int)
    ensures
        r@.len() == r.apps@.len(),
        0 <= i < r.apps@.len() ==> r@[i].0 == r.apps@[i].0@ && r@[i].1 == r.apps@[i].1.instances@,
{
}

/// A name is registered where some app has exactly that name.
pub proof fn name_is_that_of_an_app(a: Seq<AppView>, b: Seq<AppView>, app: AppView, name: Seq<char>)
    ensures
        has_name(a + b, name) <==> has_name(a, name) || has_name(b, name),
        has_name(seq![app], name) <==> app.name == name,
        !has_name(Seq::empty(), name),
{
    let s = a + b;
    if has_name(s, name) {
        let i = choose|i: int| 0 <= i < s.len() && #[trigger] s[i].name == name;
        if i < a.len() {
            assert(a[i].name == name);
        } else {
            assert(b[i - a.len()].name == name);
        }
    }
    if has_name(a, name) {
        let i = choose|i: int| 0 <= i < a.len() && #[trigger] a[i].name == name;
        assert(s[i].name == name);
    }
    if has_name(b, name) {
        let i = choose|i: int| 0 <= i < b.len() && #[trigger] b[i].name == name;
        assert(s[a.len() + i].name == name);
    }
    assert(seq![app][0].name == app.name);
}

} // verus!
