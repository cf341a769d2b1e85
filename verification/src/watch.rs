//! The live screen: what it shows, and what keys do.
use vstd::prelude::*;
use vstd::string::*;

use crate::status;
use crate::status::{app_line, instance_line, StatusAppView, StatusInstance, StatusSnapshot};
use crate::text;
use crate::text::write_decimal;

verus! {

/// How many lines of a log the screen shows.
pub const LOG_LINES: usize = 20;

/// What is selected on the screen.
#[derive(Debug, Clone, Copy, PartialEq, Eq, Structural)]
pub struct WatchState {
    pub selected_app: usize,
    pub selected_inst: usize,
    pub show_logs: bool,
}

/// A key without its modifiers.
#[derive(Debug, Clone, Copy, PartialEq, Eq, Structural)]
pub enum KeyCode {
    Char(char),
    Up,
    Down,
    Left,
    Right,
    Other,
}

/// A key event.
#[derive(Debug, Clone, Copy, PartialEq, Eq, Structural)]
pub struct Key {
    pub code: KeyCode,
    /// Whether the control key was held.
    pub control: bool,
    /// Whether the key went down; releases and repeats mean nothing.
    pub pressed: bool,
}

/// What the program does about a key.
#[derive(Debug, Clone, Copy, PartialEq, Eq, Structural)]
pub enum WatchAction {
    /// Nothing but to show the screen again.
    Continue,
    Quit,
    /// Restart the apps that are shown: all, or those of the name that is watched.
    Restart { all: bool },
    /// Stop the apps that are shown.
    Stop { all: bool },
}

/// What a key means.
#[derive(Debug, Clone, Copy, PartialEq, Eq, Structural)]
pub enum Meaning {
    Quit,
    Restart,
    Stop,
    Logs,
    NextApp,
    PreviousApp,
    NextInstance,
    PreviousInstance,
    Nothing,
}

/// What a key means.
pub open spec fn meaning_of(key: Key) -> Meaning {
    if !key.pressed {
        Meaning::Nothing
    } else {
        match key.code {
            KeyCode::Char('q') => Meaning::Quit,
            KeyCode::Char('c') => if key.control {
                Meaning::Quit
            } else {
                Meaning::Nothing
            },
            KeyCode::Char('r') => Meaning::Restart,
            KeyCode::Char('s') => Meaning::Stop,
            KeyCode::Char('l') => Meaning::Logs,
            KeyCode::Down | KeyCode::Char('j') => Meaning::NextApp,
            KeyCode::Up | KeyCode::Char('k') => Meaning::PreviousApp,
            KeyCode::Right | KeyCode::Char(']') => Meaning::NextInstance,
            KeyCode::Left | KeyCode::Char('[') => Meaning::PreviousInstance,
            _ => Meaning::Nothing,
        }
    }
}

fn meaning(key: Key) -> (r: Meaning)
    ensures
        r == meaning_of(key),
{
    if !key.pressed {
        return Meaning::Nothing;
    }
    match key.code {
        KeyCode::Char('q') => Meaning::Quit,
        KeyCode::Char('c') => if key.control {
            Meaning::Quit
        } else {
            Meaning::Nothing
        },
        KeyCode::Char('r') => Meaning::Restart,
        KeyCode::Char('s') => Meaning::Stop,
        KeyCode::Char('l') => Meaning::Logs,
        KeyCode::Down | KeyCode::Char('j') => Meaning::NextApp,
        KeyCode::Up | KeyCode::Char('k') => Meaning::PreviousApp,
        KeyCode::Right | KeyCode::Char(']') => Meaning::NextInstance,
        KeyCode::Left | KeyCode::Char('[') => Meaning::PreviousInstance,
        _ => Meaning::Nothing,
    }
}

/// The selection where fewer apps are shown than before: the last app.
pub open spec fn clamped(w: WatchState, apps: nat) -> WatchState {
    if w.selected_app >= apps && apps > 0 {
        WatchState { selected_app: (apps - 1) as usize, ..w }
    } else {
        w
    }
}

/// The selection after a key. Another app is selected with its first instance; the ends of
/// the lists are kept to.
pub open spec fn selection_after(w: WatchState, meaning: Meaning, s: Seq<StatusAppView>) -> WatchState {
    match meaning {
        Meaning::Logs => WatchState { show_logs: !w.show_logs, ..w },
        Meaning::NextApp => if w.selected_app + 1 < s.len() {
            WatchState { selected_app: (w.selected_app + 1) as usize, selected_inst: 0, ..w }
        } else {
            w
        },
        Meaning::PreviousApp => if w.selected_app > 0 {
            WatchState { selected_app: (w.selected_app - 1) as usize, selected_inst: 0, ..w }
        } else {
            w
        },
        Meaning::NextInstance => if w.selected_app < s.len() && w.selected_inst + 1
            < s[w.selected_app as int].instances.len() {
            WatchState { selected_inst: (w.selected_inst + 1) as usize, ..w }
        } else {
            w
        },
        Meaning::PreviousInstance => if w.selected_inst > 0 {
            WatchState { selected_inst: (w.selected_inst - 1) as usize, ..w }
        } else {
            w
        },
        _ => w,
    }
}

/// What is done about a key, where one name is watched or all apps are.
pub open spec fn action_after(meaning: Meaning, filtered: bool) -> WatchAction {
    match meaning {
        Meaning::Quit => WatchAction::Quit,
        Meaning::Restart => WatchAction::Restart { all: !filtered },
        Meaning::Stop => WatchAction::Stop { all: !filtered },
        _ => WatchAction::Continue,
    }
}

impl WatchState {
    /// The first instance of the first app, without logs.
    pub fn new() -> (r: WatchState)
        ensures
            r == (WatchState { selected_app: 0, selected_inst: 0, show_logs: false }),
    {
        WatchState { selected_app: 0, selected_inst: 0, show_logs: false }
    }

    /// Keeps the selection within the apps that are shown.
    pub fn clamp(&mut self, snapshot: &StatusSnapshot)
        ensures
            *final(self) == clamped(*old(self), snapshot@.apps.len()),
    {
        let n: usize = snapshot.apps.len();
        if self.selected_app >= n && n > 0 {
            self.selected_app = n - 1;
        }
    }

    /// Takes a key. `filtered` is whether only the apps of one name are shown.
    pub fn on_key(&mut self, key: Key, snapshot: &StatusSnapshot, filtered: bool) -> (r: WatchAction)
        ensures
            *final(self) == selection_after(*old(self), meaning_of(key), snapshot@.apps),
            r == action_after(meaning_of(key), filtered),
    {
        let n: usize = snapshot.apps.len();
        match meaning(key) {
            Meaning::Quit => WatchAction::Quit,
            Meaning::Restart => WatchAction::Restart { all: !filtered },
            Meaning::Stop => WatchAction::Stop { all: !filtered },
            Meaning::Logs => {
                self.show_logs = !self.show_logs;
                WatchAction::Continue
            },
            Meaning::NextApp => {
                if self.selected_app < n && n - self.selected_app > 1 {
                    self.selected_app = self.selected_app + 1;
                    self.selected_inst = 0;
                }
                WatchAction::Continue
            },
            Meaning::PreviousApp => {
                if self.selected_app > 0 {
                    self.selected_app = self.selected_app - 1;
                    self.selected_inst = 0;
                }
                WatchAction::Continue
            },
            Meaning::NextInstance => {
                if self.selected_app < n {
                    let app = &snapshot.apps[self.selected_app];
                    assert(snapshot@.apps[self.selected_app as int] == app@);
                    let m: usize = app.instances.len();
                    if self.selected_inst < m && m - self.selected_inst > 1 {
                        self.selected_inst = self.selected_inst + 1;
                    }
                }
                WatchAction::Continue
            },
            Meaning::PreviousInstance => {
                if self.selected_inst > 0 {
                    self.selected_inst = self.selected_inst - 1;
                }
                WatchAction::Continue
            },
            Meaning::Nothing => WatchAction::Continue,
        }
    }
}

/// Keeping to the apps that are shown selects one of them, where there are any.
pub proof fn clamped_selects_an_app(w: WatchState, apps: nat)
    requires
        0 < apps <= usize::MAX,
    ensures
        clamped(w, apps).selected_app < apps,
{
}

/// No key takes the selection out of the apps, nor from an instance that is there to one
/// that is not, unless the app has none.
pub proof fn keys_stay_in_range(w: WatchState, key: Key, s: Seq<StatusAppView>)
    requires
        w.selected_app < s.len(),
        s.len() <= usize::MAX,
        forall|i: int| 0 <= i < s.len() ==> (#[trigger] s[i]).instances.len() <= usize::MAX,
    ensures
        ({
            let after = selection_after(w, meaning_of(key), s);
            &&& after.selected_app < s.len()
            &&& w.selected_inst < s[w.selected_app as int].instances.len() ==> after.selected_inst == 0
                || after.selected_inst < s[after.selected_app as int].instances.len()
        }),
{
}

/// Going to the next app and back selects the same app, with its first instance.
pub proof fn next_then_previous_returns(w: WatchState, s: Seq<StatusAppView>)
    requires
        w.selected_app + 1 < s.len(),
        s.len() <= usize::MAX,
    ensures
        selection_after(selection_after(w, Meaning::NextApp, s), Meaning::PreviousApp, s) == (
        WatchState { selected_inst: 0, ..w }),
{
}

/// Which log the screen shows: that of the selected instance, where logs are asked for.
pub open spec fn shown_log(w: WatchState, s: Seq<StatusAppView>) -> Option<(Seq<char>, usize)> {
    if w.show_logs && w.selected_app < s.len() && w.selected_inst
        < s[w.selected_app as int].instances.len() {
        let app = s[w.selected_app as int];
        Some((app.name, app.instances[w.selected_inst as int].index))
    } else {
        None
    }
}

/// Finds which log the screen shows, as the name of the app and the index of the instance.
pub fn selected_log(w: &WatchState, snapshot: &StatusSnapshot) -> (r: Option<(String, usize)>)
    ensures
        r is Some <==> shown_log(*w, snapshot@.apps) is Some,
        r is Some ==> shown_log(*w, snapshot@.apps) == Some(((r->0).0@, (r->0).1)),
{
    if w.show_logs && w.selected_app < snapshot.apps.len() {
        let app = &snapshot.apps[w.selected_app];
        assert(snapshot@.apps[w.selected_app as int] == app@);
        if w.selected_inst < app.instances.len() {
            return Some((app.name.clone(), app.instances[w.selected_inst].index));
        }
    }
    None
}

/// The line about an instance on the screen.
pub open spec fn screen_instance_of(i: StatusInstance, marked: bool) -> Seq<char> {
    "  "@ + (if marked {
        "*"@
    } else {
        " "@
    }) + status::instance_line_of(i) + "\n"@
}

fn screen_instance(i: &StatusInstance, marked: bool) -> (r: String)
    ensures
        r@ == screen_instance_of(*i, marked),
{
    let mark = if marked {
        "*"
    } else {
        " "
    };
    "  ".to_owned().concat(mark).concat(instance_line(i).as_str()).concat("\n")
}

/// The lines about instances on the screen, with a mark at the selected one.
pub open spec fn screen_instances_of(s: Seq<StatusInstance>, selected: Option<usize>) -> Seq<char>
    decreases s.len(),
{
    if s.len() == 0 {
        Seq::empty()
    } else {
        screen_instances_of(s.drop_last(), selected) + screen_instance_of(
            s.last(),
            selected is Some && selected->0 == s.len() - 1,
        )
    }
}

fn push_screen_instances(out: &mut String, s: &Vec<StatusInstance>, selected: Option<usize>)
    ensures
        final(out)@ == old(out)@ + screen_instances_of(s@, selected),
{
    let ghost before = out@;
    let mut i: usize = 0;
    assert(before + screen_instances_of(s@.take(0), selected) =~= before);
    while i < s.len()
        invariant
            i <= s@.len(),
            out@ == before + screen_instances_of(s@.take(i as int), selected),
        decreases s@.len() - i,
    {
        assert(s@.take(i + 1).drop_last() =~= s@.take(i as int));
        let marked = match selected {
            Some(k) => k == i,
            None => false,
        };
        out.append(screen_instance(&s[i], marked).as_str());
        i += 1;
        assert(out@ =~= before + screen_instances_of(s@.take(i as int), selected));
    }
    assert(s@.take(i as int) =~= s@);
}

/// The lines about apps on the screen, with a mark at the selected one.
pub open spec fn screen_apps_of(s: Seq<StatusAppView>, w: WatchState) -> Seq<char>
    decreases s.len(),
{
    if s.len() == 0 {
        Seq::empty()
    } else {
        let selected = w.selected_app == s.len() - 1;
        screen_apps_of(s.drop_last(), w) + (if selected {
            "> "@
        } else {
            "  "@
        }) + status::app_line_of(s.last()) + "\n"@ + screen_instances_of(
            s.last().instances,
            if selected {
                Some(w.selected_inst)
            } else {
                None
            },
        )
    }
}

fn push_screen_apps(out: &mut String, snapshot: &StatusSnapshot, w: &WatchState)
    ensures
        final(out)@ == old(out)@ + screen_apps_of(snapshot@.apps, *w),
{
    let ghost before = out@;
    let ghost all = snapshot@.apps;
    let mut i: usize = 0;
    assert(before + screen_apps_of(all.take(0), *w) =~= before);
    while i < snapshot.apps.len()
        invariant
            i <= snapshot.apps@.len(),
            all == snapshot@.apps,
            out@ == before + screen_apps_of(all.take(i as int), *w),
        decreases snapshot.apps@.len() - i,
    {
        assert(all.take(i + 1).drop_last() =~= all.take(i as int));
        assert(all.take(i + 1).last() == snapshot.apps@[i as int]@);
        let app = &snapshot.apps[i];
        let selected = w.selected_app == i;
        if selected {
            out.append("> ");
        } else {
            out.append("  ");
        }
        out.append(app_line(app).as_str());
        out.append("\n");
        let inst = if selected {
            Some(w.selected_inst)
        } else {
            None
        };
        push_screen_instances(out, &app.instances, inst);
        i += 1;
        assert(out@ =~= before + screen_apps_of(all.take(i as int), *w));
    }
    assert(all.take(i as int) =~= all);
}

/// Lines, each with a line feed behind it.
pub open spec fn ended_lines(lines: Seq<Seq<char>>) -> Seq<char>
    decreases lines.len(),
{
    if lines.len() == 0 {
        Seq::empty()
    } else {
        ended_lines(lines.drop_last()) + lines.last() + "\n"@
    }
}

fn push_lines(out: &mut String, lines: &Vec<String>)
    ensures
        final(out)@ == old(out)@ + ended_lines(text::texts(lines@)),
{
    let ghost before = out@;
    let ghost all = text::texts(lines@);
    let mut i: usize = 0;
    assert(before + ended_lines(all.take(0)) =~= before);
    while i < lines.len()
        invariant
            i <= lines@.len(),
            all == text::texts(lines@),
            out@ == before + ended_lines(all.take(i as int)),
        decreases lines@.len() - i,
    {
        assert(all.take(i + 1).drop_last() =~= all.take(i as int));
        out.append(lines[i].as_str());
        out.append("\n");
        i += 1;
        assert(out@ =~= before + ended_lines(all.take(i as int)));
    }
    assert(all.take(i as int) =~= all);
}

/// The log on the screen: its last lines, or why it could not be read.
pub open spec fn screen_log_of(name: Seq<char>, idx: usize, tail: Result<Vec<String>, String>) -> Seq<char> {
    "\n--- logs: "@ + name + "["@ + text::decimal(idx as nat) + "] (tail 20) ---\n"@ + (match tail {
        Ok(lines) => ended_lines(text::texts(lines@)),
        Err(err) => "(unable to read log: "@ + err@ + ")\n"@,
    })
}

/// The top of the screen: it is cleared, and the keys are named.
pub open spec fn screen_top(now: nat) -> Seq<char> {
    "\x1b[2J\x1b[Hrunner status  (q/ctrl+c exit, r restart, s stop, l logs, j/k app, [ ] inst)  t="@
        + text::decimal(now) + "\n"@
}

/// The whole screen.
pub open spec fn screen_of(
    s: Seq<StatusAppView>,
    w: WatchState,
    now: nat,
    tail: Result<Vec<String>, String>,
) -> Seq<char> {
    if s.len() == 0 {
        screen_top(now) + "No apps registered.\n"@
    } else {
        let apps = screen_top(now) + screen_apps_of(s, w);
        match shown_log(w, s) {
            Some((name, idx)) => apps + screen_log_of(name, idx, tail),
            None => apps,
        }
    }
}

/// Draws the screen. `tail` is the end of the log that `selected_log` names, or why it could
/// not be read; where no log is shown, it does not matter.
pub fn render_status_screen_with_selection(
    snapshot: &StatusSnapshot,
    w: &WatchState,
    now: u64,
    tail: &Result<Vec<String>, String>,
) -> (r: String)
    ensures
        r@ == screen_of(snapshot@.apps, *w, now as nat, *tail),
{
    let mut out =
        "\x1b[2J\x1b[Hrunner status  (q/ctrl+c exit, r restart, s stop, l logs, j/k app, [ ] inst)  t=".to_owned().concat(
        write_decimal(now).as_str(),
    ).concat("\n");
    if snapshot.apps.len() == 0 {
        return out.concat("No apps registered.\n");
    }
    push_screen_apps(&mut out, snapshot, w);
    if let Some((name, idx)) = selected_log(w, snapshot) {
        let ghost apps = out@;
        out.append("\n--- logs: ");
        out.append(name.as_str());
        out.append("[");
        out.append(write_decimal(idx as u64).as_str());
        out.append("] (tail 20) ---\n");
        match tail {
            Ok(lines) => {
                push_lines(&mut out, lines);
            },
            Err(err) => {
                out.append("(unable to read log: ");
                out.append(err.as_str());
                out.append(")\n");
            },
        }
        assert(out@ =~= apps + screen_log_of(name@, idx, *tail));
    }
    out
}

/// The key for logs turns them on and off again, and selects nothing else.
pub proof fn logs_key_toggles(w: WatchState, s: Seq<StatusAppView>)
    ensures
        selection_after(w, Meaning::Logs, s).show_logs == !w.show_logs,
        selection_after(w, Meaning::Logs, s).selected_app == w.selected_app,
        selection_after(w, Meaning::Logs, s).selected_inst == w.selected_inst,
        selection_after(selection_after(w, Meaning::Logs, s), Meaning::Logs, s) == w,
{
}

/// The keys for apps go by one app, to its first instance, as far as there are apps. The keys
/// for instances go by one instance of the same app, as far as there are instances. None of
/// them turns logs on or off.
pub proof fn keys_go_by_one(w: WatchState, s: Seq<StatusAppView>)
    requires
        w.selected_app < s.len() <= usize::MAX,
        w.selected_inst < s[w.selected_app as int].instances.len() <= usize::MAX,
    ensures
        ({
            let n = s[w.selected_app as int].instances.len();
            let next = selection_after(w, Meaning::NextApp, s);
            let previous = selection_after(w, Meaning::PreviousApp, s);
            let right = selection_after(w, Meaning::NextInstance, s);
            let left = selection_after(w, Meaning::PreviousInstance, s);
            &&& w.selected_app + 1 < s.len() ==> next.selected_app == w.selected_app + 1
                && next.selected_inst == 0
            &&& w.selected_app + 1 == s.len() ==> next == w
            &&& w.selected_app > 0 ==> previous.selected_app == w.selected_app - 1
                && previous.selected_inst == 0
            &&& w.selected_app == 0 ==> previous == w
            &&& right.selected_app == w.selected_app && left.selected_app == w.selected_app
            &&& right.selected_inst == (if w.selected_inst + 1 < n { w.selected_inst + 1 } else {
                w.selected_inst as int
            })
            &&& left.selected_inst == (if w.selected_inst > 0 { w.selected_inst - 1 } else { 0 })
            &&& next.show_logs == w.show_logs && previous.show_logs == w.show_logs
            &&& right.show_logs == w.show_logs && left.show_logs == w.show_logs
        }),
{
}

/// Going to the next instance and back selects the same one.
pub proof fn next_instance_then_previous_returns(w: WatchState, s: Seq<StatusAppView>)
    requires
        w.selected_app < s.len(),
        w.selected_inst + 1 < s[w.selected_app as int].instances.len() <= usize::MAX,
    ensures
        selection_after(selection_after(w, Meaning::NextInstance, s), Meaning::PreviousInstance, s) == w,
{
}

/// A key that is let go does nothing. Control makes a difference to no key but `c`, which
/// means nothing without it. Arrows mean what their letters mean.
pub proof fn keys_mean_what_the_screen_says(key: Key)
    ensures
        !key.pressed ==> meaning_of(key) == Meaning::Nothing,
        key.pressed ==> {
            &&& key.code == KeyCode::Char('q') ==> meaning_of(key) == Meaning::Quit
            &&& key.code == KeyCode::Char('c') ==> (meaning_of(key) == Meaning::Quit <==> key.control)
            &&& key.code == KeyCode::Char('r') <==> meaning_of(key) == Meaning::Restart
            &&& key.code == KeyCode::Char('s') <==> meaning_of(key) == Meaning::Stop
            &&& key.code == KeyCode::Char('l') <==> meaning_of(key) == Meaning::Logs
            &&& key.code == KeyCode::Char('j') || key.code == KeyCode::Down <==> meaning_of(key)
                == Meaning::NextApp
            &&& key.code == KeyCode::Char('k') || key.code == KeyCode::Up <==> meaning_of(key)
                == Meaning::PreviousApp
            &&& key.code == KeyCode::Char(']') || key.code == KeyCode::Right <==> meaning_of(key)
                == Meaning::NextInstance
            &&& key.code == KeyCode::Char('[') || key.code == KeyCode::Left <==> meaning_of(key)
                == Meaning::PreviousInstance
            &&& meaning_of(key) == Meaning::Quit ==> key.code == KeyCode::Char('q') || key.code
                == KeyCode::Char('c')
        },
{
}

/// Restarting and stopping are about the app that is looked at, and about all of them where
/// all are shown. No other key but that for leaving asks for anything.
pub proof fn actions_are_about_what_is_shown(meaning: Meaning, filtered: bool, w: WatchState, s: Seq<StatusAppView>)
    ensures
        meaning == Meaning::Restart ==> action_after(meaning, filtered) == (WatchAction::Restart {
            all: !filtered,
        }),
        meaning == Meaning::Stop ==> action_after(meaning, filtered) == (WatchAction::Stop {
            all: !filtered,
        }),
        action_after(meaning, filtered) == WatchAction::Quit <==> meaning == Meaning::Quit,
        action_after(meaning, filtered) != WatchAction::Continue ==> selection_after(w, meaning, s) == w,
{
}

/// Keeping the selection within the apps moves it to the last app where it lies behind that,
/// and otherwise not at all.
pub proof fn clamping_moves_no_more_than_it_must(w: WatchState, apps: nat)
    requires
        apps <= usize::MAX,
    ensures
        w.selected_app < apps || apps == 0 ==> clamped(w, apps) == w,
        0 < apps <= w.selected_app ==> clamped(w, apps).selected_app + 1 == apps,
        clamped(w, apps).selected_inst == w.selected_inst,
        clamped(w, apps).show_logs == w.show_logs,
{
}

/// The log that is shown is that of the selected instance.
pub proof fn log_is_that_of_the_selected(w: WatchState, s: Seq<StatusAppView>)
    ensures
        !w.show_logs ==> shown_log(w, s) is None,
        w.selected_app >= s.len() ==> shown_log(w, s) is None,
        w.show_logs && w.selected_app < s.len() ==> ({
            let app = s[w.selected_app as int];
            &&& w.selected_inst >= app.instances.len() ==> shown_log(w, s) is None
            &&& w.selected_inst < app.instances.len() ==> shown_log(w, s) == Some(
                (app.name, app.instances[w.selected_inst as int].index),
            )
        }),
{
}

/// The screen shows the line of each app and the lines of its instances, one app after
/// another. The selected app and the selected instance are marked, and no others.
pub proof fn screen_marks_the_selected(s: Seq<StatusAppView>, app: StatusAppView, w: WatchState)
    ensures
        ({
            let all = screen_apps_of(s.push(app), w);
            let here = w.selected_app == s.len();
            let mark = if here { "> "@ } else { "  "@ };
            let inst = if here { Some(w.selected_inst) } else { None };
            &&& all == screen_apps_of(s, w) + mark + status::app_line_of(app) + "\n"@
                + screen_instances_of(app.instances, inst)
            &&& screen_apps_of(Seq::empty(), w) == Seq::<char>::empty()
        }),
{
    assert(s.push(app).drop_last() =~= s);
}

/// The lines of instances on the screen come one after another, with a star at the selected
/// one alone.
pub proof fn screen_stars_the_selected(s: Seq<StatusInstance>, i: StatusInstance, selected: Option<usize>)
    ensures
        ({
            let all = screen_instances_of(s.push(i), selected);
            let star = selected matches Some(k) && k == s.len();
            &&& star ==> all == screen_instances_of(s, selected) + ("  "@ + "*"@ + status::instance_line_of(i)
                + "\n"@)
            &&& !star ==> all == screen_instances_of(s, selected) + ("  "@ + " "@ + status::instance_line_of(
                i,
            ) + "\n"@)
            &&& screen_instances_of(Seq::empty(), selected) == Seq::<char>::empty()
        }),
{
    assert(s.push(i).drop_last() =~= s);
}

/// A log on the screen is headed by the app and the index, and has every line that was read.
pub proof fn screen_shows_every_line(lines: Seq<Seq<char>>, line: Seq<char>, name: Seq<char>, idx: usize, tail: Vec<String>, err: String)
    ensures
        ended_lines(lines.push(line)) == ended_lines(lines) + line + "\n"@,
        ended_lines(Seq::empty()) == Seq::<char>::empty(),
        text::occurs(
            name + "["@ + text::decimal(idx as nat),
            screen_log_of(name, idx, Ok(tail)),
        ),
        text::occurs(ended_lines(text::texts(tail@)), screen_log_of(name, idx, Ok(tail))),
        text::occurs(err@, screen_log_of(name, idx, Err(err))),
{
    assert(lines.push(line).drop_last() =~= lines);
    let d = text::decimal(idx as nat);
    let head = "\n--- logs: "@ + name + "["@ + d + "] (tail 20) ---\n"@;
    let x = name + "["@ + d;
    text::occurs_at_end("\n--- logs: "@, name, "["@, d);
    text::occurs_before(x, "\n--- logs: "@ + name + "["@ + d, "] (tail 20) ---\n"@);
    text::occurs_before(x, head, ended_lines(text::texts(tail@)));
    text::occurs_between(head, ended_lines(text::texts(tail@)), Seq::empty());
    let e = "(unable to read log: "@ + err@ + ")\n"@;
    text::occurs_between("(unable to read log: "@, err@, ")\n"@);
    text::occurs_between(head, e, Seq::empty());
    text::occurs_within(err@, e, head + e);
}

/// The whole screen has the time on top, then the apps, then the log that is shown, if any.
pub proof fn screen_has_its_parts(
    s: Seq<StatusAppView>,
    w: WatchState,
    now: nat,
    tail: Result<Vec<String>, String>,
)
    requires
        s.len() > 0,
    ensures
        screen_top(now).is_prefix_of(screen_of(s, w, now, tail)),
        text::occurs(screen_apps_of(s, w), screen_of(s, w, now, tail)),
        text::occurs(text::decimal(now), screen_top(now)),
        !w.show_logs ==> screen_of(s, w, now, tail) == screen_top(now) + screen_apps_of(s, w),
{
    let top = screen_top(now);
    let apps = screen_apps_of(s, w);
    text::occurs_between(top, apps, Seq::empty());
    text::occurs_between(
        "\x1b[2J\x1b[Hrunner status  (q/ctrl+c exit, r restart, s stop, l logs, j/k app, [ ] inst)  t="@,
        text::decimal(now),
        "\n"@,
    );
    if let Some((name, idx)) = shown_log(w, s) {
        text::occurs_before(apps, top + apps, screen_log_of(name, idx, tail));
        assert(screen_of(s, w, now, tail).subrange(0, top.len() as int) =~= top);
    } else {
        assert(screen_of(s, w, now, tail).subrange(0, top.len() as int) =~= top);
    }
}

} // verus!
