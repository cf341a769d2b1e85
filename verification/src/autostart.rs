//! Starting the daemon on boot: what is installed, and how it is taken out again.
use vstd::prelude::*;
use vstd::string::*;

use crate::paths;
use crate::paths::base_dir;
use crate::text;
use crate::text::write_decimal;

verus! {

/// An argument of a command.
#[derive(Debug)]
pub enum Arg {
    Text(String),
    /// The path of the file that is installed.
    File,
}

/// What an `Arg` says.
pub enum ArgView {
    Text(Seq<char>),
    File,
}

impl View for Arg {
    type V = ArgView;

    open spec fn view(&self) -> ArgView {
        match *self {
            Arg::Text(s) => ArgView::Text(s@),
            Arg::File => ArgView::File,
        }
    }
}

/// A command to run: a program and its arguments. It is no error where it fails.
#[derive(Debug)]
pub struct Call {
    pub program: String,
    pub args: Vec<Arg>,
}

/// What a `Call` says.
pub struct CallView {
    pub program: Seq<char>,
    pub args: Seq<ArgView>,
}

impl View for Call {
    type V = CallView;

    open spec fn view(&self) -> CallView {
        CallView { program: self.program@, args: self.args@.map_values(|a: Arg| a@) }
    }
}

/// What a list of commands says.
pub open spec fn call_views(s: Seq<Call>) -> Seq<CallView> {
    s.map_values(|c: Call| c@)
}

/// A file to write, under the home directory, and commands to run then.
#[derive(Debug)]
pub struct Install {
    pub path: Vec<String>,
    pub content: String,
    pub calls: Vec<Call>,
}

/// Commands to run, and a file to remove then; it is no error where it is not there.
#[derive(Debug)]
pub struct Uninstall {
    pub calls: Vec<Call>,
    pub path: Vec<String>,
}

/// The operating systems that differ in how they start programs on boot.
#[derive(Debug, Clone, Copy, PartialEq, Eq, Structural)]
pub enum Os {
    Linux,
    Macos,
    Other,
}

fn text_arg(s: &str) -> (r: Arg)
    ensures
        r@ == ArgView::Text(s@),
{
    Arg::Text(s.to_owned())
}

/// The parts of the path of the systemd unit of the daemon.
pub open spec fn systemd_unit_parts() -> Seq<Seq<char>> {
    seq![".config/systemd/user/alwaysrunning-runner.service"@]
}

/// Where the systemd unit of the daemon stands, under the home directory.
pub fn systemd_unit_path() -> (r: Vec<String>)
    ensures
        text::texts(r@) == systemd_unit_parts(),
{
    let r = vec![".config/systemd/user/alwaysrunning-runner.service".to_owned()];
    assert(text::texts(r@) =~= systemd_unit_parts());
    r
}

/// The systemd unit that keeps the daemon running.
pub open spec fn systemd_unit(exe: Seq<char>) -> Seq<char> {
    "[Unit]\nDescription=AlwaysRunning runner daemon\n\n[Service]\nExecStart="@ + exe
        + " daemon --foreground\nRestart=always\n\n[Install]\nWantedBy=default.target\n"@
}

/// A `systemctl` command about the user's own units.
pub open spec fn systemctl(verb: Seq<char>) -> CallView {
    CallView {
        program: "systemctl"@,
        args: seq![
            ArgView::Text("--user"@),
            ArgView::Text(verb),
            ArgView::Text("--now"@),
            ArgView::Text("alwaysrunning-runner.service"@),
        ],
    }
}

fn call_systemctl(verb: &str) -> (r: Call)
    ensures
        r@ == systemctl(verb@),
{
    let args = vec![
        text_arg("--user"),
        text_arg(verb),
        text_arg("--now"),
        text_arg("alwaysrunning-runner.service"),
    ];
    let r = Call { program: "systemctl".to_owned(), args };
    assert(r@.args =~= systemctl(verb@).args);
    r
}

/// The unit is written, read in by systemd, and enabled.
pub open spec fn is_systemd_install(i: Install, exe: Seq<char>) -> bool {
    &&& text::texts(i.path@) == systemd_unit_parts()
    &&& i.content@ == systemd_unit(exe)
    &&& call_views(i.calls@) == seq![
        CallView {
            program: "systemctl"@,
            args: seq![ArgView::Text("--user"@), ArgView::Text("daemon-reload"@)],
        },
        systemctl("enable"@),
    ]
}

/// Installs the daemon as a systemd unit of the user. `exe` is the path of the runner.
pub fn install_systemd_user(exe: &str) -> (r: Install)
    ensures
        is_systemd_install(r, exe@),
{
    let content =
        "[Unit]\nDescription=AlwaysRunning runner daemon\n\n[Service]\nExecStart=".to_owned().concat(
        exe,
    ).concat(" daemon --foreground\nRestart=always\n\n[Install]\nWantedBy=default.target\n");
    let reload = Call {
        program: "systemctl".to_owned(),
        args: vec![text_arg("--user"), text_arg("daemon-reload")],
    };
    assert(reload@.args =~= seq![ArgView::Text("--user"@), ArgView::Text("daemon-reload"@)]);
    let calls = vec![reload, call_systemctl("enable")];
    assert(call_views(calls@) =~= seq![reload@, systemctl("enable"@)]);
    Install { path: systemd_unit_path(), content, calls }
}

/// The unit is disabled, and its file removed: the one that installing writes.
pub open spec fn is_systemd_uninstall(u: Uninstall) -> bool {
    &&& call_views(u.calls@) == seq![systemctl("disable"@)]
    &&& text::texts(u.path@) == systemd_unit_parts()
}

/// Takes the systemd unit of the daemon out.
pub fn uninstall_systemd_user() -> (r: Uninstall)
    ensures
        is_systemd_uninstall(r),
{
    let calls = vec![call_systemctl("disable")];
    assert(call_views(calls@) =~= seq![systemctl("disable"@)]);
    Uninstall { calls, path: systemd_unit_path() }
}

/// The parts of the path of the launchd agent of the daemon.
pub open spec fn launchd_plist_parts() -> Seq<Seq<char>> {
    seq!["Library/LaunchAgents/com.alwaysrunning.runner.plist"@]
}

/// Where the launchd agent of the daemon stands, under the home directory.
pub fn launchd_plist_path() -> (r: Vec<String>)
    ensures
        text::texts(r@) == launchd_plist_parts(),
{
    let r = vec!["Library/LaunchAgents/com.alwaysrunning.runner.plist".to_owned()];
    assert(text::texts(r@) =~= launchd_plist_parts());
    r
}

/// The file that takes the output of the daemon under launchd, with its kind: `out` or `err`.
pub fn daemon_output_path(kind: &str) -> (r: Vec<String>)
    ensures
        text::texts(r@) == paths::base_parts().push("run/daemon."@ + kind@),
{
    let mut r = base_dir();
    let ghost before = r@;
    r.push("run/daemon.".to_owned().concat(kind));
    assert(text::texts(r@) =~= text::texts(before).push("run/daemon."@ + kind@));
    r
}

/// The launchd agent that keeps the daemon running.
pub open spec fn launchd_plist(exe: Seq<char>, out: Seq<char>, err: Seq<char>) -> Seq<char> {
    "<?xml version=\"1.0\" encoding=\"UTF-8\"?>\n<!DOCTYPE plist PUBLIC \"-//Apple//DTD PLIST 1.0//EN\" \"http://www.apple.com/DTDs/PropertyList-1.0.dtd\">\n<plist version=\"1.0\">\n<dict>\n<key>Label</key>\n<string>com.alwaysrunning.runner</string>\n<key>ProgramArguments</key>\n<array>\n<string>"@
        + exe
        + "</string>\n<string>daemon</string>\n<string>--foreground</string>\n</array>\n<key>RunAtLoad</key>\n<true/>\n<key>KeepAlive</key>\n<true/>\n<key>StandardOutPath</key>\n<string>"@
        + out + "</string>\n<key>StandardErrorPath</key>\n<string>"@ + err
        + "</string>\n</dict>\n</plist>\n"@
}

/// The domain of a user in launchd.
pub open spec fn launchd_domain(uid: nat) -> Seq<char> {
    "gui/"@ + text::decimal(uid)
}

/// A `launchctl` command about the file of the agent.
pub open spec fn launchctl_file(verb: Seq<char>, uid: nat) -> CallView {
    CallView {
        program: "launchctl"@,
        args: seq![ArgView::Text(verb), ArgView::Text(launchd_domain(uid)), ArgView::File],
    }
}

/// A `launchctl` command about the agent.
pub open spec fn launchctl_agent(verb: Seq<char>, uid: nat) -> CallView {
    CallView {
        program: "launchctl"@,
        args: seq![
            ArgView::Text(verb),
            ArgView::Text(launchd_domain(uid) + "/com.alwaysrunning.runner"@),
        ],
    }
}

fn domain(uid: u32) -> (r: String)
    ensures
        r@ == launchd_domain(uid as nat),
{
    "gui/".to_owned().concat(write_decimal(uid as u64).as_str())
}

fn call_launchctl(file_verb: &str, agent_verb: &str, uid: u32) -> (r: Vec<Call>)
    ensures
        call_views(r@) == seq![
            launchctl_file(file_verb@, uid as nat),
            launchctl_agent(agent_verb@, uid as nat),
        ],
{
    let first = Call {
        program: "launchctl".to_owned(),
        args: vec![text_arg(file_verb), Arg::Text(domain(uid)), Arg::File],
    };
    assert(first@.args =~= launchctl_file(file_verb@, uid as nat).args);
    let second = Call {
        program: "launchctl".to_owned(),
        args: vec![
            text_arg(agent_verb),
            Arg::Text(domain(uid).concat("/com.alwaysrunning.runner")),
        ],
    };
    assert(second@.args =~= launchctl_agent(agent_verb@, uid as nat).args);
    let r = vec![first, second];
    assert(call_views(r@) =~= seq![first@, second@]);
    r
}

/// The agent is written, handed to launchd, and enabled.
pub open spec fn is_launchd_install(
    i: Install,
    exe: Seq<char>,
    out: Seq<char>,
    err: Seq<char>,
    uid: nat,
) -> bool {
    &&& text::texts(i.path@) == launchd_plist_parts()
    &&& i.content@ == launchd_plist(exe, out, err)
    &&& call_views(i.calls@) == seq![
        launchctl_file("bootstrap"@, uid),
        launchctl_agent("enable"@, uid),
    ]
}

/// Installs the daemon as a launchd agent of the user. `exe` is the path of the runner, `out`
/// and `err` are those of the files for its output.
pub fn install_launchd(exe: &str, out: &str, err: &str, uid: u32) -> (r: Install)
    ensures
        is_launchd_install(r, exe@, out@, err@, uid as nat),
{
    let content =
        "<?xml version=\"1.0\" encoding=\"UTF-8\"?>\n<!DOCTYPE plist PUBLIC \"-//Apple//DTD PLIST 1.0//EN\" \"http://www.apple.com/DTDs/PropertyList-1.0.dtd\">\n<plist version=\"1.0\">\n<dict>\n<key>Label</key>\n<string>com.alwaysrunning.runner</string>\n<key>ProgramArguments</key>\n<array>\n<string>".to_owned().concat(
        exe,
    ).concat(
        "</string>\n<string>daemon</string>\n<string>--foreground</string>\n</array>\n<key>RunAtLoad</key>\n<true/>\n<key>KeepAlive</key>\n<true/>\n<key>StandardOutPath</key>\n<string>",
    ).concat(out).concat("</string>\n<key>StandardErrorPath</key>\n<string>").concat(err).concat(
        "</string>\n</dict>\n</plist>\n",
    );
    Install {
        path: launchd_plist_path(),
        content,
        calls: call_launchctl("bootstrap", "enable", uid),
    }
}

/// The agent is taken from launchd and disabled, and its file removed: the one that
/// installing writes.
pub open spec fn is_launchd_uninstall(u: Uninstall, uid: nat) -> bool {
    &&& call_views(u.calls@) == seq![
        launchctl_file("bootout"@, uid),
        launchctl_agent("disable"@, uid),
    ]
    &&& text::texts(u.path@) == launchd_plist_parts()
}

/// Takes the launchd agent of the daemon out.
pub fn uninstall_launchd(uid: u32) -> (r: Uninstall)
    ensures
        is_launchd_uninstall(r, uid as nat),
{
    Uninstall { calls: call_launchctl("bootout", "disable", uid), path: launchd_plist_path() }
}

/// What is said where there is no autostart.
pub fn unsupported() -> (r: String)
    ensures
        r@ == "Autostart not supported on this OS yet."@,
{
    "Autostart not supported on this OS yet.".to_owned()
}

/// Installs the autostart; `None` where the operating system has none.
pub fn cmd_install(os: Os, exe: &str, out: &str, err: &str, uid: u32) -> (r: Option<Install>)
    ensures
        match os {
            Os::Linux => r is Some && is_systemd_install(r->0, exe@),
            Os::Macos => r is Some && is_launchd_install(r->0, exe@, out@, err@, uid as nat),
            Os::Other => r is None,
        },
{
    match os {
        Os::Linux => Some(install_systemd_user(exe)),
        Os::Macos => Some(install_launchd(exe, out, err, uid)),
        Os::Other => None,
    }
}

/// Takes the autostart out; `None` where the operating system has none.
pub fn cmd_uninstall(os: Os, uid: u32) -> (r: Option<Uninstall>)
    ensures
        match os {
            Os::Linux => r is Some && is_systemd_uninstall(r->0),
            Os::Macos => r is Some && is_launchd_uninstall(r->0, uid as nat),
            Os::Other => r is None,
        },
{
    match os {
        Os::Linux => Some(uninstall_systemd_user()),
        Os::Macos => Some(uninstall_launchd(uid)),
        Os::Other => None,
    }
}

/// The unit names the runner by the path that is given, whatever it is.
pub proof fn unit_names_the_runner(exe: Seq<char>, other: Seq<char>)
    ensures
        text::occurs(exe, systemd_unit(exe)),
        systemd_unit(exe).len() == exe.len() + systemd_unit(Seq::empty()).len(),
        systemd_unit(exe) == systemd_unit(other) <==> exe == other,
{
    let a = "[Unit]\nDescription=AlwaysRunning runner daemon\n\n[Service]\nExecStart="@;
    let b = " daemon --foreground\nRestart=always\n\n[Install]\nWantedBy=default.target\n"@;
    text::occurs_between(a, exe, b);
    if systemd_unit(exe) == systemd_unit(other) {
        let n = a.len() as int;
        assert((a + exe + b).len() == (a + other + b).len());
        assert(exe =~= (a + exe + b).subrange(n, n + exe.len() as int));
        assert(other =~= (a + other + b).subrange(n, n + other.len() as int));
    }
}

/// The agent names the runner and its two logs by the paths that are given.
pub proof fn agent_names_the_runner(exe: Seq<char>, out: Seq<char>, err: Seq<char>)
    ensures
        text::occurs(exe, launchd_plist(exe, out, err)),
        text::occurs(
            out + "</string>\n<key>StandardErrorPath</key>\n<string>"@ + err,
            launchd_plist(exe, out, err),
        ),
{
    let t = launchd_plist(exe, out, err);
    let a = "<?xml version=\"1.0\" encoding=\"UTF-8\"?>\n<!DOCTYPE plist PUBLIC \"-//Apple//DTD PLIST 1.0//EN\" \"http://www.apple.com/DTDs/PropertyList-1.0.dtd\">\n<plist version=\"1.0\">\n<dict>\n<key>Label</key>\n<string>com.alwaysrunning.runner</string>\n<key>ProgramArguments</key>\n<array>\n<string>"@;
    let b = "</string>\n<string>daemon</string>\n<string>--foreground</string>\n</array>\n<key>RunAtLoad</key>\n<true/>\n<key>KeepAlive</key>\n<true/>\n<key>StandardOutPath</key>\n<string>"@;
    let c = "</string>\n<key>StandardErrorPath</key>\n<string>"@;
    let d = "</string>\n</dict>\n</plist>\n"@;
    text::occurs_between(a, exe, b);
    text::occurs_before(exe, a + exe + b, out);
    text::occurs_before(exe, a + exe + b + out, c);
    text::occurs_before(exe, a + exe + b + out + c, err);
    text::occurs_before(exe, a + exe + b + out + c + err, d);
    text::occurs_at_end(a + exe + b, out, c, err);
    text::occurs_before(out + c + err, a + exe + b + out + c + err, d);
    assert(t == a + exe + b + out + c + err + d);
}

/// The agent belongs to the user whose number is given.
pub proof fn agent_belongs_to_its_user(verb: Seq<char>, uid: nat, other: nat)
    ensures
        launchd_domain(uid) == launchd_domain(other) <==> uid == other,
        launchctl_file(verb, uid).args[0] == ArgView::Text(verb),
        launchctl_file(verb, uid).args[1] == ArgView::Text("gui/"@ + text::decimal(uid)),
        launchctl_agent(verb, uid).args[0] == ArgView::Text(verb),
        launchctl_agent(verb, uid).args[1] == ArgView::Text(
            "gui/"@ + text::decimal(uid) + "/com.alwaysrunning.runner"@,
        ),
{
    let a = "gui/"@;
    let n = a.len() as int;
    if launchd_domain(uid) == launchd_domain(other) {
        assert((a + text::decimal(uid)).skip(n) =~= text::decimal(uid));
        assert((a + text::decimal(other)).skip(n) =~= text::decimal(other));
        text::decimal_reads_back(uid);
        text::decimal_reads_back(other);
    }
}

/// Taking the unit out removes the file that installing it wrote, and disables what installing
/// it enabled, after the units were read anew.
pub proof fn uninstall_undoes_install(i: Install, u: Uninstall, exe: Seq<char>)
    requires
        is_systemd_install(i, exe),
        is_systemd_uninstall(u),
    ensures
        text::texts(i.path@) == text::texts(u.path@),
        i.content@ == systemd_unit(exe),
        i.calls@.len() == 2,
        u.calls@.len() == 1,
        i.calls@[0]@.program == "systemctl"@,
        i.calls@[0]@.args.contains(ArgView::Text("daemon-reload"@)),
        i.calls@[1]@.program == u.calls@[0]@.program,
        i.calls@[1]@.args.len() == u.calls@[0]@.args.len(),
        i.calls@[1]@.args[1] == ArgView::Text("enable"@),
        u.calls@[0]@.args[1] == ArgView::Text("disable"@),
        forall|k: int|
            0 <= k < i.calls@[1]@.args.len() && k != 1 ==> #[trigger] i.calls@[1]@.args[k]
                == u.calls@[0]@.args[k],
{
    let a = call_views(i.calls@);
    let b = call_views(u.calls@);
    assert(a.len() == 2 && b.len() == 1);
    assert(a[0] == i.calls@[0]@ && a[1] == i.calls@[1]@);
    assert(b[0] == u.calls@[0]@);
    assert(a[0].args[1] == ArgView::Text("daemon-reload"@));
    assert(a[1] == systemctl("enable"@));
    assert(b[0] == systemctl("disable"@));
}

/// Taking the agent out removes the file that installing it wrote, and is about the agent of
/// the same user.
pub proof fn uninstall_undoes_agent(
    i: Install,
    u: Uninstall,
    exe: Seq<char>,
    out: Seq<char>,
    err: Seq<char>,
    uid: nat,
)
    requires
        is_launchd_install(i, exe, out, err, uid),
        is_launchd_uninstall(u, uid),
    ensures
        text::texts(i.path@) == text::texts(u.path@),
        i.content@ == launchd_plist(exe, out, err),
        i.calls@.len() == 2,
        u.calls@.len() == 2,
        i.calls@[0]@.args[0] == ArgView::Text("bootstrap"@),
        u.calls@[0]@.args[0] == ArgView::Text("bootout"@),
        i.calls@[0]@.args.last() is File,
        u.calls@[0]@.args.last() is File,
        i.calls@[1]@.args[0] == ArgView::Text("enable"@),
        u.calls@[1]@.args[0] == ArgView::Text("disable"@),
        forall|n: int, k: int|
            0 <= n < 2 && 1 <= k < i.calls@[n]@.args.len() ==> #[trigger] i.calls@[n]@.args[k]
                == u.calls@[n]@.args[k],
{
    let a = call_views(i.calls@);
    let b = call_views(u.calls@);
    assert(a.len() == 2 && b.len() == 2);
    assert(a[0] == i.calls@[0]@ && a[1] == i.calls@[1]@);
    assert(b[0] == u.calls@[0]@ && b[1] == u.calls@[1]@);
    assert(a[0] == launchctl_file("bootstrap"@, uid));
    assert(b[0] == launchctl_file("bootout"@, uid));
    assert(a[1] == launchctl_agent("enable"@, uid));
    assert(b[1] == launchctl_agent("disable"@, uid));
}

} // verus!
