//! The commands of the runner and their arguments.
use vstd::prelude::*;
use vstd::string::*;

use crate::text;

verus! {

/// An argument of a command.
#[derive(Debug)]
pub struct ArgSpec {
    pub id: &'static str,
    /// The name after two dashes; an argument without one goes by its position.
    pub long: Option<&'static str>,
    pub help: Option<&'static str>,
    pub value_name: Option<&'static str>,
    /// The value where none is given.
    pub default: Option<&'static str>,
    pub required: bool,
    /// Whether it takes no value, and only its presence counts.
    pub flag: bool,
    /// Whether its value is a number.
    pub number: bool,
    /// Whether it takes all that is left, whatever that looks like.
    pub trailing: bool,
}

/// What an `ArgSpec` says.
pub struct ArgView {
    pub id: Seq<char>,
    pub long: Option<Seq<char>>,
    pub help: Option<Seq<char>>,
    pub value_name: Option<Seq<char>>,
    pub default: Option<Seq<char>>,
    pub required: bool,
    pub flag: bool,
    pub number: bool,
    pub trailing: bool,
}

impl View for ArgSpec {
    type V = ArgView;

    open spec fn view(&self) -> ArgView {
        ArgView {
            id: self.id@,
            long: text::opt_str(self.long),
            help: text::opt_str(self.help),
            value_name: text::opt_str(self.value_name),
            default: text::opt_str(self.default),
            required: self.required,
            flag: self.flag,
            number: self.number,
            trailing: self.trailing,
        }
    }
}

/// What a list of arguments says.
pub open spec fn arg_views(s: Seq<ArgSpec>) -> Seq<ArgView> {
    s.map_values(|a: ArgSpec| a@)
}

/// A command.
#[derive(Debug)]
pub struct SubSpec {
    pub name: &'static str,
    pub about: &'static str,
    pub args: Vec<ArgSpec>,
}

/// What a `SubSpec` says.
pub struct SubView {
    pub name: Seq<char>,
    pub about: Seq<char>,
    pub args: Seq<ArgView>,
}

impl View for SubSpec {
    type V = SubView;

    open spec fn view(&self) -> SubView {
        SubView { name: self.name@, about: self.about@, args: arg_views(self.args@) }
    }
}

/// What a list of commands says.
pub open spec fn sub_views(s: Seq<SubSpec>) -> Seq<SubView> {
    s.map_values(|c: SubSpec| c@)
}

/// The program as a whole.
#[derive(Debug)]
pub struct RootSpec {
    pub name: &'static str,
    pub version: &'static str,
    pub about: &'static str,
    /// Whether the help is shown where there are no arguments.
    pub help_when_empty: bool,
    /// Whether a command must be given.
    pub needs_command: bool,
    /// Whether each command can show the version too.
    pub version_everywhere: bool,
}

/// What a `RootSpec` says.
pub struct RootView {
    pub name: Seq<char>,
    pub version: Seq<char>,
    pub about: Seq<char>,
    pub help_when_empty: bool,
    pub needs_command: bool,
    pub version_everywhere: bool,
}

impl View for RootSpec {
    type V = RootView;

    open spec fn view(&self) -> RootView {
        RootView {
            name: self.name@,
            version: self.version@,
            about: self.about@,
            help_when_empty: self.help_when_empty,
            needs_command: self.needs_command,
            version_everywhere: self.version_everywhere,
        }
    }
}

/// The runner.
pub open spec fn runner_view() -> RootView {
    RootView {
        name: "runner"@,
        version: "0.1.2"@,
        about: "Run a binary and keep it alive."@,
        help_when_empty: true,
        needs_command: true,
        version_everywhere: true,
    }
}

/// The runner.
pub fn runner() -> (r: RootSpec)
    ensures
        r@ == runner_view(),
{
    RootSpec {
        name: "runner",
        version: "0.1.2",
        about: "Run a binary and keep it alive.",
        help_when_empty: true,
        needs_command: true,
        version_everywhere: true,
    }
}

/// An argument that goes by its position.
pub open spec fn positional_view(id: Seq<char>, value_name: Seq<char>, required: bool) -> ArgView {
    ArgView {
        id,
        long: None,
        help: None,
        value_name: Some(value_name),
        default: None,
        required,
        flag: false,
        number: false,
        trailing: false,
    }
}

fn positional(id: &'static str, value_name: &'static str, required: bool) -> (r: ArgSpec)
    ensures
        r@ == positional_view(id@, value_name@, required),
{
    ArgSpec {
        id,
        long: None,
        help: None,
        value_name: Some(value_name),
        default: None,
        required,
        flag: false,
        number: false,
        trailing: false,
    }
}

/// Everything that is left.
pub open spec fn rest_view(id: Seq<char>, value_name: Seq<char>) -> ArgView {
    ArgView { trailing: true, ..positional_view(id, value_name, false) }
}

fn rest(id: &'static str, value_name: &'static str) -> (r: ArgSpec)
    ensures
        r@ == rest_view(id@, value_name@),
{
    ArgSpec { trailing: true, ..positional(id, value_name, false) }
}

/// An argument without a value.
pub open spec fn flag_view(id: Seq<char>, long: Seq<char>, help: Option<Seq<char>>) -> ArgView {
    ArgView {
        id,
        long: Some(long),
        help,
        value_name: None,
        default: None,
        required: false,
        flag: true,
        number: false,
        trailing: false,
    }
}

fn flag(id: &'static str, long: &'static str, help: Option<&'static str>) -> (r: ArgSpec)
    ensures
        r@ == flag_view(id@, long@, text::opt_str(help)),
{
    ArgSpec {
        id,
        long: Some(long),
        help,
        value_name: None,
        default: None,
        required: false,
        flag: true,
        number: false,
        trailing: false,
    }
}

/// An argument with a value, which may be left out.
pub open spec fn option_view(
    id: Seq<char>,
    long: Seq<char>,
    value_name: Seq<char>,
    help: Option<Seq<char>>,
    default: Option<Seq<char>>,
    number: bool,
) -> ArgView {
    ArgView {
        id,
        long: Some(long),
        help,
        value_name: Some(value_name),
        default,
        required: false,
        flag: false,
        number,
        trailing: false,
    }
}

fn option(
    id: &'static str,
    long: &'static str,
    value_name: &'static str,
    help: Option<&'static str>,
    default: Option<&'static str>,
    number: bool,
) -> (r: ArgSpec)
    ensures
        r@ == option_view(
            id@,
            long@,
            value_name@,
            text::opt_str(help),
            text::opt_str(default),
            number,
        ),
{
    ArgSpec {
        id,
        long: Some(long),
        help,
        value_name: Some(value_name),
        default,
        required: false,
        flag: false,
        number,
        trailing: false,
    }
}

/// The `run` command.
pub open spec fn run_view() -> SubView {
    SubView {
        name: "run"@,
        about: "Register and run an app continuously"@,
        args: seq![
            positional_view("name"@, "NAME"@, true),
            positional_view("cmd"@, "CMD"@, true),
            option_view(
                "env_file"@,
                "env-file"@,
                "ENV_FILE"@,
                Some("Load environment variables from a file (simple KEY=VALUE format)"@),
                None,
                false,
            ),
            flag_view(
                "clean_env"@,
                "clean-env"@,
                Some("Clear inherited environment before applying env_file"@),
            ),
            flag_view(
                "foreground"@,
                "foreground"@,
                Some("Keep the runner in the foreground with a live status screen"@),
            ),
            rest_view("args"@, "ARGS"@),
            option_view("instances"@, "instances"@, "INSTANCES"@, None, Some("1"@), true),
            flag_view("no_autostart"@, "no-autostart"@, Some("Skip autostart install"@)),
        ],
    }
}

fn run_spec() -> (r: SubSpec)
    ensures
        r@ == run_view(),
{
    let args: Vec<ArgSpec> = vec![
        positional("name", "NAME", true),
        positional("cmd", "CMD", true),
        option(
            "env_file",
            "env-file",
            "ENV_FILE",
            Some("Load environment variables from a file (simple KEY=VALUE format)"),
            None,
            false,
        ),
        flag(
            "clean_env",
            "clean-env",
            Some("Clear inherited environment before applying env_file"),
        ),
        flag(
            "foreground",
            "foreground",
            Some("Keep the runner in the foreground with a live status screen"),
        ),
        rest("args", "ARGS"),
        option("instances", "instances", "INSTANCES", None, Some("1"), true),
        flag("no_autostart", "no-autostart", Some("Skip autostart install")),
    ];
    let r = SubSpec { name: "run", about: "Register and run an app continuously", args };
    assert(r@.args =~= run_view().args);
    r
}

/// The `status` command.
pub open spec fn status_view() -> SubView {
    SubView {
        name: "status"@,
        about: "Show status of running apps"@,
        args: seq![
            positional_view("name"@, "NAME"@, false),
            flag_view("watch"@, "watch"@, Some("Show a live status screen (like pm2 monit)"@)),
            flag_view("json"@, "json"@, Some("Output status as JSON"@)),
        ],
    }
}

fn status_spec() -> (r: SubSpec)
    ensures
        r@ == status_view(),
{
    let args: Vec<ArgSpec> = vec![
        positional("name", "NAME", false),
        flag("watch", "watch", Some("Show a live status screen (like pm2 monit)")),
        flag("json", "json", Some("Output status as JSON")),
    ];
    let r = SubSpec { name: "status", about: "Show status of running apps", args };
    assert(r@.args =~= status_view().args);
    r
}

/// The `start` command.
pub open spec fn start_view() -> SubView {
    SubView {
        name: "start"@,
        about: "Start a registered app"@,
        args: seq![
            positional_view("name"@, "NAME"@, true),
            option_view(
                "instances"@,
                "instances"@,
                "INSTANCES"@,
                Some("Override desired instances"@),
                None,
                true,
            ),
        ],
    }
}

fn start_spec() -> (r: SubSpec)
    ensures
        r@ == start_view(),
{
    let args: Vec<ArgSpec> = vec![
        positional("name", "NAME", true),
        option(
            "instances",
            "instances",
            "INSTANCES",
            Some("Override desired instances"),
            None,
            true,
        ),
    ];
    let r = SubSpec { name: "start", about: "Start a registered app", args };
    assert(r@.args =~= start_view().args);
    r
}

/// The `stop` command.
pub open spec fn stop_view() -> SubView {
    SubView {
        name: "stop"@,
        about: "Stop an app (or all apps)"@,
        args: seq![
            positional_view("name"@, "NAME"@, false),
            flag_view("all"@, "all"@, None),
            option_view(
                "signal"@,
                "signal"@,
                "SIGNAL"@,
                Some("Signal to send (e.g. SIGTERM, SIGKILL, TERM, 15)"@),
                Some("TERM"@),
                false,
            ),
        ],
    }
}

fn stop_spec() -> (r: SubSpec)
    ensures
        r@ == stop_view(),
{
    let args: Vec<ArgSpec> = vec![
        positional("name", "NAME", false),
        flag("all", "all", None),
        option(
            "signal",
            "signal",
            "SIGNAL",
            Some("Signal to send (e.g. SIGTERM, SIGKILL, TERM, 15)"),
            Some("TERM"),
            false,
        ),
    ];
    let r = SubSpec { name: "stop", about: "Stop an app (or all apps)", args };
    assert(r@.args =~= stop_view().args);
    r
}

/// The `restart` command.
pub open spec fn restart_view() -> SubView {
    SubView {
        name: "restart"@,
        about: "Restart an app (or all apps)"@,
        args: seq![
            positional_view("name"@, "NAME"@, false),
            flag_view("all"@, "all"@, None),
            option_view(
                "signal"@,
                "signal"@,
                "SIGNAL"@,
                Some("Signal to send before restarting"@),
                Some("TERM"@),
                false,
            ),
        ],
    }
}

fn restart_spec() -> (r: SubSpec)
    ensures
        r@ == restart_view(),
{
    let args: Vec<ArgSpec> = vec![
        positional("name", "NAME", false),
        flag("all", "all", None),
        option(
            "signal",
            "signal",
            "SIGNAL",
            Some("Signal to send before restarting"),
            Some("TERM"),
            false,
        ),
    ];
    let r = SubSpec { name: "restart", about: "Restart an app (or all apps)", args };
    assert(r@.args =~= restart_view().args);
    r
}

/// The `delete` command.
pub open spec fn delete_view() -> SubView {
    SubView {
        name: "delete"@,
        about: "Delete an app (removes from config)"@,
        args: seq![
            positional_view("name"@, "NAME"@, false),
            flag_view("all"@, "all"@, None),
        ],
    }
}

fn delete_spec() -> (r: SubSpec)
    ensures
        r@ == delete_view(),
{
    let args: Vec<ArgSpec> = vec![
        positional("name", "NAME", false),
        flag("all", "all", None),
    ];
    let r = SubSpec { name: "delete", about: "Delete an app (removes from config)", args };
    assert(r@.args =~= delete_view().args);
    r
}

/// The `logs` command.
pub open spec fn logs_view() -> SubView {
    SubView {
        name: "logs"@,
        about: "Show logs for an app"@,
        args: seq![
            positional_view("name"@, "NAME"@, true),
            option_view("instance"@, "instance"@, "INSTANCE"@, None, None, true),
            flag_view("follow"@, "follow"@, None),
            option_view(
                "lines"@,
                "lines"@,
                "LINES"@,
                Some("Number of lines to show (ignored with --follow)"@),
                Some("200"@),
                true,
            ),
            option_view(
                "since"@,
                "since"@,
                "SINCE"@,
                Some("Show logs since a timestamp or duration (e.g. 1700000000, 10m, 2h)"@),
                None,
                false,
            ),
            flag_view("json"@, "json"@, Some("Output logs as JSON lines"@)),
        ],
    }
}

fn logs_spec() -> (r: SubSpec)
    ensures
        r@ == logs_view(),
{
    let args: Vec<ArgSpec> = vec![
        positional("name", "NAME", true),
        option("instance", "instance", "INSTANCE", None, None, true),
        flag("follow", "follow", None),
        option(
            "lines",
            "lines",
            "LINES",
            Some("Number of lines to show (ignored with --follow)"),
            Some("200"),
            true,
        ),
        option(
            "since",
            "since",
            "SINCE",
            Some("Show logs since a timestamp or duration (e.g. 1700000000, 10m, 2h)"),
            None,
            false,
        ),
        flag("json", "json", Some("Output logs as JSON lines")),
    ];
    let r = SubSpec { name: "logs", about: "Show logs for an app", args };
    assert(r@.args =~= logs_view().args);
    r
}

/// The `export` command.
pub open spec fn export_view() -> SubView {
    SubView {
        name: "export"@,
        about: "Export app config to a file"@,
        args: seq![
            positional_view("file"@, "FILE"@, true),
            positional_view("name"@, "NAME"@, false),
        ],
    }
}

fn export_spec() -> (r: SubSpec)
    ensures
        r@ == export_view(),
{
    let args: Vec<ArgSpec> = vec![
        positional("file", "FILE", true),
        positional("name", "NAME", false),
    ];
    let r = SubSpec { name: "export", about: "Export app config to a file", args };
    assert(r@.args =~= export_view().args);
    r
}

/// The `import` command.
pub open spec fn import_view() -> SubView {
    SubView {
        name: "import"@,
        about: "Import app config from a file"@,
        args: seq![
            positional_view("file"@, "FILE"@, true),
            flag_view("replace"@, "replace"@, Some("Replace existing config instead of merging"@)),
            flag_view("start"@, "start"@, Some("Start imported apps"@)),
        ],
    }
}

fn import_spec() -> (r: SubSpec)
    ensures
        r@ == import_view(),
{
    let args: Vec<ArgSpec> = vec![
        positional("file", "FILE", true),
        flag("replace", "replace", Some("Replace existing config instead of merging")),
        flag("start", "start", Some("Start imported apps")),
    ];
    let r = SubSpec { name: "import", about: "Import app config from a file", args };
    assert(r@.args =~= import_view().args);
    r
}

/// The `attach` command.
pub open spec fn attach_view() -> SubView {
    SubView {
        name: "attach"@,
        about: "Alias for status --watch"@,
        args: seq![
            positional_view("name"@, "NAME"@, false),
        ],
    }
}

fn attach_spec() -> (r: SubSpec)
    ensures
        r@ == attach_view(),
{
    let args: Vec<ArgSpec> = vec![
        positional("name", "NAME", false),
    ];
    let r = SubSpec { name: "attach", about: "Alias for status --watch", args };
    assert(r@.args =~= attach_view().args);
    r
}

/// The `list` command.
pub open spec fn list_view() -> SubView {
    SubView {
        name: "list"@,
        about: "Alias for status"@,
        args: seq![
            flag_view("watch"@, "watch"@, None),
            flag_view("json"@, "json"@, None),
            positional_view("name"@, "NAME"@, false),
        ],
    }
}

fn list_spec() -> (r: SubSpec)
    ensures
        r@ == list_view(),
{
    let args: Vec<ArgSpec> = vec![
        flag("watch", "watch", None),
        flag("json", "json", None),
        positional("name", "NAME", false),
    ];
    let r = SubSpec { name: "list", about: "Alias for status", args };
    assert(r@.args =~= list_view().args);
    r
}

/// The `daemon` command.
pub open spec fn daemon_view() -> SubView {
    SubView {
        name: "daemon"@,
        about: "Run the supervisor (internal)"@,
        args: seq![
            flag_view(
                "foreground"@,
                "foreground"@,
                Some("Keep in the foreground (useful for launchd/systemd)"@),
            ),
            flag_view("watch"@, "watch"@, Some("Show a live status screen (for foreground runs)"@)),
        ],
    }
}

fn daemon_spec() -> (r: SubSpec)
    ensures
        r@ == daemon_view(),
{
    let args: Vec<ArgSpec> = vec![
        flag(
            "foreground",
            "foreground",
            Some("Keep in the foreground (useful for launchd/systemd)"),
        ),
        flag("watch", "watch", Some("Show a live status screen (for foreground runs)")),
    ];
    let r = SubSpec { name: "daemon", about: "Run the supervisor (internal)", args };
    assert(r@.args =~= daemon_view().args);
    r
}

/// The `install` command.
pub open spec fn install_view() -> SubView {
    SubView {
        name: "install"@,
        about: "Install autostart for the runner daemon"@,
        args: seq![],
    }
}

fn install_spec() -> (r: SubSpec)
    ensures
        r@ == install_view(),
{
    let args: Vec<ArgSpec> = Vec::new();
    let r = SubSpec { name: "install", about: "Install autostart for the runner daemon", args };
    assert(r@.args =~= install_view().args);
    r
}

/// The `uninstall` command.
pub open spec fn uninstall_view() -> SubView {
    SubView {
        name: "uninstall"@,
        about: "Uninstall autostart for the runner daemon"@,
        args: seq![],
    }
}

fn uninstall_spec() -> (r: SubSpec)
    ensures
        r@ == uninstall_view(),
{
    let args: Vec<ArgSpec> = Vec::new();
    let r = SubSpec { name: "uninstall", about: "Uninstall autostart for the runner daemon", args };
    assert(r@.args =~= uninstall_view().args);
    r
}

/// All commands.
pub open spec fn grammar() -> Seq<SubView> {
    seq![
        run_view(),
        status_view(),
        start_view(),
        stop_view(),
        restart_view(),
        delete_view(),
        logs_view(),
        export_view(),
        import_view(),
        attach_view(),
        list_view(),
        daemon_view(),
        install_view(),
        uninstall_view(),
    ]
}

/// Lists all commands.
pub fn all_commands() -> (r: Vec<SubSpec>)
    ensures
        sub_views(r@) == grammar(),
{
    let r = vec![
        run_spec(),
        status_spec(),
        start_spec(),
        stop_spec(),
        restart_spec(),
        delete_spec(),
        logs_spec(),
        export_spec(),
        import_spec(),
        attach_spec(),
        list_spec(),
        daemon_spec(),
        install_spec(),
        uninstall_spec(),
    ];
    assert(sub_views(r@) =~= grammar());
    r
}

/// An argument is described by what is given of it, and by nothing else.
pub proof fn arguments_are_as_described(
    id: Seq<char>,
    long: Seq<char>,
    value_name: Seq<char>,
    help: Option<Seq<char>>,
    default: Option<Seq<char>>,
    on: bool,
)
    ensures
        ({
            let p = positional_view(id, value_name, on);
            let r = rest_view(id, value_name);
            let f = flag_view(id, long, help);
            let o = option_view(id, long, value_name, help, default, on);
            &&& p.id == id && p.value_name == Some(value_name) && p.required == on
            &&& p.long is None && p.default is None && !p.flag && !p.number && !p.trailing
            &&& r.id == id && r.value_name == Some(value_name) && r.trailing
            &&& r.long is None && r.default is None && !r.flag && !r.number && !r.required
            &&& f.id == id && f.long == Some(long) && f.help == help && f.flag
            &&& f.value_name is None && f.default is None && !f.number && !f.required && !f.trailing
            &&& o.id == id && o.long == Some(long) && o.value_name == Some(value_name) && o.help == help
            &&& o.default == default && o.number == on && !o.flag && !o.required && !o.trailing
        }),
{
}

/// Where it is not said otherwise, an app has one instance, a log is shown by its last two
/// hundred lines, and processes are ended by `TERM`.
pub proof fn defaults_can_be_read()
    ensures
        exists|i: int|
            0 <= i < run_view().args.len() && (#[trigger] run_view().args[i]).id == "instances"@ && (
            run_view().args[i].default matches Some(d) && text::unsigned_of(d, usize::MAX as nat) == Some(
                1nat,
            )),
        exists|i: int|
            0 <= i < logs_view().args.len() && (#[trigger] logs_view().args[i]).id == "lines"@ && (
            logs_view().args[i].default matches Some(d) && text::unsigned_of(d, usize::MAX as nat) == Some(
                200nat,
            )),
        exists|i: int|
            0 <= i < stop_view().args.len() && (#[trigger] stop_view().args[i]).id == "signal"@
                && stop_view().args[i].default == Some("TERM"@),
        exists|i: int|
            0 <= i < restart_view().args.len() && (#[trigger] restart_view().args[i]).id == "signal"@
                && restart_view().args[i].default == Some("TERM"@),
{
    reveal_strlit("1");
    reveal_strlit("200");
    let f = |c: char| text::is_digit(c);
    let one = "1"@;
    assert(one =~= seq!['1']);
    assert(one.all(f));
    assert(one.drop_last() =~= Seq::empty());
    reveal_with_fuel(text::digits_value, 4);
    assert(text::digits_value(one) == 1);
    assert(run_view().args[6].id == "instances"@);
    let many = "200"@;
    assert(many =~= seq!['2', '0', '0']);
    assert(many.all(f));
    assert(many.drop_last() =~= seq!['2', '0']);
    assert(many.drop_last().drop_last() =~= seq!['2']);
    assert(many.drop_last().drop_last().drop_last() =~= Seq::empty());
    assert(text::digits_value(many) == 200);
    assert(logs_view().args[3].id == "lines"@);
    assert(stop_view().args[2].id == "signal"@);
    assert(restart_view().args[2].id == "signal"@);
}

} // verus!
