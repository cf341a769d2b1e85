//! The command line: which command it gives, with which values.
use vstd::prelude::*;
use vstd::string::*;

use crate::grammar;
use crate::grammar::{all_commands, runner, ArgSpec, ArgView, RootSpec, RootView, SubSpec, SubView};
use crate::model;
use crate::text;
use crate::text::{copy_texts, parse_unsigned, text_eq, to_chars};

verus! {

/// A command line that was understood.
#[derive(Debug)]
pub struct Cli {
    pub command: Commands,
}

/// The commands.
#[derive(Debug)]
pub enum Commands {
    /// Register and run an app continuously.
    Run {
        name: String,
        cmd: String,
        env_file: Option<String>,
        clean_env: bool,
        foreground: bool,
        args: Vec<String>,
        instances: usize,
        no_autostart: bool,
    },
    /// Show the status of the apps.
    Status { name: Option<String>, watch: bool, json: bool },
    /// Resume a registered app.
    Start { name: String, instances: Option<usize> },
    /// Stop an app, or all.
    Stop { name: Option<String>, all: bool, signal: String },
    /// Restart an app, or all.
    Restart { name: Option<String>, all: bool, signal: String },
    /// Forget an app, or all.
    Delete { name: Option<String>, all: bool },
    /// Show the log of an instance.
    Logs {
        name: String,
        instance: Option<usize>,
        follow: bool,
        lines: usize,
        since: Option<String>,
        json: bool,
    },
    /// Write apps to a file.
    Export { file: String, name: Option<String> },
    /// Take apps from a file.
    Import { file: String, replace: bool, start: bool },
    /// Show the live screen.
    Attach { name: Option<String> },
    /// Show the status of the apps.
    List { watch: bool, json: bool, name: Option<String> },
    /// Be the daemon.
    Daemon { foreground: bool, watch: bool },
    /// Start the daemon on boot.
    Install,
    /// No longer start the daemon on boot.
    Uninstall,
}

/// What `Commands` says.
pub enum CommandsView {
    Run {
        name: Seq<char>,
        cmd: Seq<char>,
        env_file: Option<Seq<char>>,
        clean_env: bool,
        foreground: bool,
        args: Seq<Seq<char>>,
        instances: usize,
        no_autostart: bool,
    },
    Status { name: Option<Seq<char>>, watch: bool, json: bool },
    Start { name: Seq<char>, instances: Option<usize> },
    Stop { name: Option<Seq<char>>, all: bool, signal: Seq<char> },
    Restart { name: Option<Seq<char>>, all: bool, signal: Seq<char> },
    Delete { name: Option<Seq<char>>, all: bool },
    Logs {
        name: Seq<char>,
        instance: Option<usize>,
        follow: bool,
        lines: usize,
        since: Option<Seq<char>>,
        json: bool,
    },
    Export { file: Seq<char>, name: Option<Seq<char>> },
    Import { file: Seq<char>, replace: bool, start: bool },
    Attach { name: Option<Seq<char>> },
    List { watch: bool, json: bool, name: Option<Seq<char>> },
    Daemon { foreground: bool, watch: bool },
    Install,
    Uninstall,
}

impl View for Commands {
    type V = CommandsView;

    open spec fn view(&self) -> CommandsView {
        match *self {
            Commands::Run { name, cmd, env_file, clean_env, foreground, args, instances, no_autostart } => CommandsView::Run {
                name: name@,
                cmd: cmd@,
                env_file: model::opt_text(env_file),
                clean_env,
                foreground,
                args: text::texts(args@),
                instances,
                no_autostart,
            },
            Commands::Status { name, watch, json } => CommandsView::Status {
                name: model::opt_text(name),
                watch,
                json,
            },
            Commands::Start { name, instances } => CommandsView::Start { name: name@, instances },
            Commands::Stop { name, all, signal } => CommandsView::Stop {
                name: model::opt_text(name),
                all,
                signal: signal@,
            },
            Commands::Restart { name, all, signal } => CommandsView::Restart {
                name: model::opt_text(name),
                all,
                signal: signal@,
            },
            Commands::Delete { name, all } => CommandsView::Delete {
                name: model::opt_text(name),
                all,
            },
            Commands::Logs { name, instance, follow, lines, since, json } => CommandsView::Logs {
                name: name@,
                instance,
                follow,
                lines,
                since: model::opt_text(since),
                json,
            },
            Commands::Export { file, name } => CommandsView::Export {
                file: file@,
                name: model::opt_text(name),
            },
            Commands::Import { file, replace, start } => CommandsView::Import {
                file: file@,
                replace,
                start,
            },
            Commands::Attach { name } => CommandsView::Attach { name: model::opt_text(name) },
            Commands::List { watch, json, name } => CommandsView::List {
                watch,
                json,
                name: model::opt_text(name),
            },
            Commands::Daemon { foreground, watch } => CommandsView::Daemon { foreground, watch },
            Commands::Install => CommandsView::Install,
            Commands::Uninstall => CommandsView::Uninstall,
        }
    }
}

/// A command, and the values of its arguments, by their id.
#[derive(Debug)]
pub struct Matched {
    pub subcommand: String,
    pub values: Vec<(String, Vec<String>)>,
}

/// What the values of arguments say.
pub open spec fn value_views(v: Seq<(String, Vec<String>)>) -> Seq<(Seq<char>, Seq<Seq<char>>)> {
    v.map_values(|e: (String, Vec<String>)| (e.0@, text::texts(e.1@)))
}

/// What a `Matched` says.
pub struct MatchedView {
    pub subcommand: Seq<char>,
    pub values: Seq<(Seq<char>, Seq<Seq<char>>)>,
}

impl View for Matched {
    type V = MatchedView;

    open spec fn view(&self) -> MatchedView {
        MatchedView { subcommand: self.subcommand@, values: value_views(self.values@) }
    }
}

/// A command line that is not carried out: it is wrong, or asks for the help or the version.
#[derive(Debug)]
pub struct Rejected {
    /// What is said to the user.
    pub message: String,
    /// The same with the colours of a terminal.
    pub styled: String,
    /// Zero where the user asked for it.
    pub exit_code: i32,
}

/// `clap::Command`: a command that is being put together.
#[verifier::external_type_specification]
#[verifier::external_body]
pub struct ExCommand(clap::Command);

/// The arguments that a `clap::Command` was given.
pub uninterp spec fn command_args(c: clap::Command) -> Seq<ArgView>;

/// The subcommands that a `clap::Command` was given.
pub uninterp spec fn command_subs(c: clap::Command) -> Seq<SubView>;

/// What a `clap::Command` was told of the program as a whole: nothing, or one description.
pub uninterp spec fn command_root(c: clap::Command) -> Seq<RootView>;

/// What `clap::Command::try_get_matches_from` makes of a command line: the exit code where it
/// rejects it. `largest` is the largest number that a value can be.
pub uninterp spec fn parsed(
    root: Seq<RootView>,
    subs: Seq<SubView>,
    argv: Seq<Seq<char>>,
    largest: nat,
) -> Result<Option<MatchedView>, i32>;

/// What `clap::Error::render` says of a command line that is rejected: plain, and with the
/// colours of a terminal.
pub uninterp spec fn rejection_texts(
    root: Seq<RootView>,
    subs: Seq<SubView>,
    argv: Seq<Seq<char>>,
    largest: nat,
) -> (Seq<char>, Seq<char>);

/// A character that is no part of how any system writes paths.
pub open spec fn plain_char(c: char) -> bool {
    'a' <= c <= 'z' || 'A' <= c <= 'Z' || '0' <= c <= '9' || c == '-' || c == '_'
}

/// Whether the program was called by a plain name, which every machine takes for the same
/// file name.
pub open spec fn plain_program(argv: Seq<Seq<char>>) -> bool {
    argv.len() > 0 && argv[0].len() > 0 && argv[0].all(|c: char| plain_char(c))
}

/// `clap::Command::default`: a command with no arguments and no subcommands, which was told
/// nothing.
#[verifier::external_body]
fn new_command() -> (r: clap::Command)
    ensures
        command_args(r) == Seq::<ArgView>::empty(),
        command_subs(r) == Seq::<SubView>::empty(),
        command_root(r) == Seq::<RootView>::empty(),
{
    clap::Command::default()
}

/// `clap::Command::arg`: one argument more, with all that its description says of it.
#[verifier::external_body]
fn with_arg(c: clap::Command, a: &ArgSpec) -> (r: clap::Command)
    ensures
        command_args(r) == command_args(c).push(a@),
        command_subs(r) == command_subs(c),
        command_root(r) == command_root(c),
{
    let number = clap::builder::ValueParser::new(<usize as std::str::FromStr>::from_str);
    let all = clap::builder::ValueRange::from(0..);
    c.arg(
        clap::Arg::new(a.id).long(a.long).help(a.help).value_name(a.value_name)
            .default_value(a.default).required(a.required)
            .action(a.flag.then_some(clap::ArgAction::SetTrue))
            .value_parser(a.number.then_some(number))
            .num_args(clap::builder::Resettable::from(a.trailing.then_some(all)))
            .trailing_var_arg(a.trailing).allow_hyphen_values(a.trailing),
    )
}

/// `clap::Command::subcommand`: one subcommand more, under a name. It has arguments, and no
/// subcommands of its own.
#[verifier::external_body]
fn with_subcommand(
    c: clap::Command,
    name: &'static str,
    about: &'static str,
    sub: clap::Command,
) -> (r: clap::Command)
    requires
        command_subs(sub) == Seq::<SubView>::empty(),
        command_root(sub) == Seq::<RootView>::empty(),
    ensures
        command_args(r) == command_args(c),
        command_subs(r) == command_subs(c).push(
            (SubView { name: name@, about: about@, args: command_args(sub) }),
        ),
        command_root(r) == command_root(c),
{
    c.subcommand(sub.name(name).about(about))
}

/// `clap::Command::name`, `version`, `about`, `arg_required_else_help`, `subcommand_required`
/// and `propagate_version`: what the program as a whole is.
#[verifier::external_body]
fn with_root(c: clap::Command, root: &RootSpec) -> (r: clap::Command)
    requires
        command_root(c) == Seq::<RootView>::empty(),
    ensures
        command_root(r) == seq![root@],
        command_args(r) == command_args(c),
        command_subs(r) == command_subs(c),
{
    c.name(root.name)
        .version(root.version)
        .about(root.about)
        .arg_required_else_help(root.help_when_empty)
        .subcommand_required(root.needs_command)
        .propagate_version(root.version_everywhere)
}

/// `clap::Command::try_get_matches_from`: reads a command line by the subcommands that were
/// given. What comes of it is named, and depends on the program, its subcommands, the command
/// line and the range of numbers alone; so is the exit code of a rejection, which is zero or
/// two. The texts of a rejection, which `clap::Error::render` gives, are named where the
/// program was called by a plain name. Otherwise they are left open: they hold the file name
/// of the program, which goes by how the machine writes paths. The commands are those of the
/// runner, which `clap` has nothing against.
#[verifier::external_body]
fn parse(c: clap::Command, argv: &Vec<String>) -> (r: Result<Option<Matched>, Rejected>)
    requires
        command_root(c) == seq![grammar::runner_view()],
        command_args(c) == Seq::<ArgView>::empty(),
        command_subs(c) == grammar::grammar(),
    ensures
        ({
            let words = text::texts(argv@);
            let p = parsed(command_root(c), command_subs(c), words, usize::MAX as nat);
            let texts = rejection_texts(command_root(c), command_subs(c), words, usize::MAX as nat);
            match r {
                Ok(Some(m)) => p == Ok::<Option<MatchedView>, i32>(Some(m@)),
                Ok(None) => p == Ok::<Option<MatchedView>, i32>(None),
                Err(e) => {
                    &&& p == Err::<Option<MatchedView>, i32>(e.exit_code)
                    &&& e.exit_code == 0 || e.exit_code == 2
                    &&& plain_program(words) ==> (e.message@, e.styled@) == texts
                },
            }
        }),
{
    match c.try_get_matches_from(argv) {
        Ok(m) => Ok(m.subcommand().map(|(name, sub)| Matched {
            subcommand: name.to_string(),
            values: sub.ids().map(|id| {
                let raw = sub.get_raw(id.as_str()).unwrap_or_default();
                (id.to_string(), raw.map(|v| v.to_string_lossy().to_string()).collect())
            }).collect(),
        })),
        Err(e) => Err(Rejected {
            message: e.render().to_string(),
            styled: e.render().ansi().to_string(),
            exit_code: e.exit_code(),
        }),
    }
}

/// Puts one command together.
fn build_sub(s: &SubSpec) -> (r: clap::Command)
    ensures
        command_args(r) == s@.args,
        command_subs(r) == Seq::<SubView>::empty(),
        command_root(r) == Seq::<RootView>::empty(),
{
    let mut c = new_command();
    let mut i: usize = 0;
    assert(grammar::arg_views(s.args@).take(0) =~= Seq::empty());
    while i < s.args.len()
        invariant
            i <= s.args@.len(),
            command_subs(c) == Seq::<SubView>::empty(),
            command_root(c) == Seq::<RootView>::empty(),
            command_args(c) == grammar::arg_views(s.args@).take(i as int),
        decreases s.args@.len() - i,
    {
        c = with_arg(c, &s.args[i]);
        assert(grammar::arg_views(s.args@).take(i + 1) =~= grammar::arg_views(s.args@).take(
            i as int,
        ).push(s.args@[i as int]@));
        i += 1;
    }
    assert(grammar::arg_views(s.args@).take(i as int) =~= grammar::arg_views(s.args@));
    c
}

/// Puts all commands together.
fn build(root: &RootSpec, subs: &Vec<SubSpec>) -> (r: clap::Command)
    ensures
        command_root(r) == seq![root@],
        command_args(r) == Seq::<ArgView>::empty(),
        command_subs(r) == grammar::sub_views(subs@),
{
    let mut c = with_root(new_command(), root);
    let mut i: usize = 0;
    assert(grammar::sub_views(subs@).take(0) =~= Seq::empty());
    while i < subs.len()
        invariant
            i <= subs@.len(),
            command_root(c) == seq![root@],
            command_args(c) == Seq::<ArgView>::empty(),
            command_subs(c) == grammar::sub_views(subs@).take(i as int),
        decreases subs@.len() - i,
    {
        let s = &subs[i];
        c = with_subcommand(c, s.name, s.about, build_sub(s));
        assert(grammar::sub_views(subs@).take(i + 1) =~= grammar::sub_views(subs@).take(
            i as int,
        ).push(s@));
        i += 1;
    }
    assert(grammar::sub_views(subs@).take(i as int) =~= grammar::sub_views(subs@));
    c
}

/// The ids of values.
pub open spec fn ids(v: Seq<(Seq<char>, Seq<Seq<char>>)>) -> Seq<Seq<char>> {
    v.map_values(|e: (Seq<char>, Seq<Seq<char>>)| e.0)
}

/// The values of an argument; none where it was left out.
pub open spec fn values_of(v: Seq<(Seq<char>, Seq<Seq<char>>)>, id: Seq<char>) -> Seq<Seq<char>> {
    let i = text::first_index(ids(v), id);
    if 0 <= i < v.len() {
        v[i].1
    } else {
        Seq::empty()
    }
}

/// The value of an argument; `None` where it was left out.
pub open spec fn value_of(v: Seq<(Seq<char>, Seq<Seq<char>>)>, id: Seq<char>) -> Option<Seq<char>> {
    let all = values_of(v, id);
    if all.len() > 0 {
        Some(all[0])
    } else {
        None
    }
}

/// Whether a flag was given.
pub open spec fn is_set(v: Seq<(Seq<char>, Seq<Seq<char>>)>, id: Seq<char>) -> bool {
    value_of(v, id) == Some("true"@)
}

/// The number that an argument gives: `Some(None)` where it was left out, and `None` where it
/// is no number.
pub open spec fn number_of(
    v: Seq<(Seq<char>, Seq<Seq<char>>)>,
    id: Seq<char>,
) -> Option<Option<usize>> {
    match value_of(v, id) {
        None => Some(None),
        Some(s) => match text::unsigned_of(s, usize::MAX as nat) {
            Some(n) => Some(Some(n as usize)),
            None => None,
        },
    }
}

fn find_values(v: &Vec<(String, Vec<String>)>, id: &str) -> (r: Vec<String>)
    ensures
        text::texts(r@) == values_of(value_views(v@), id@),
{
    let ghost views = value_views(v@);
    let ghost keys = ids(views);
    let mut i: usize = 0;
    while i < v.len()
        invariant
            i <= v@.len(),
            views == value_views(v@),
            keys == ids(views),
            forall|k: int| 0 <= k < i ==> keys[k] != id@,
        decreases v@.len() - i,
    {
        assert(keys[i as int] == v@[i as int].0@);
        if text_eq(v[i].0.as_str(), id) {
            proof {
                text::first_index_is(keys, id@, i as int);
            }
            return copy_texts(&v[i].1);
        }
        i += 1;
    }
    proof {
        text::first_index_is(keys, id@, i as int);
    }
    let r: Vec<String> = Vec::new();
    assert(text::texts(r@) =~= Seq::empty());
    r
}

fn find_value(v: &Vec<(String, Vec<String>)>, id: &str) -> (r: Option<String>)
    ensures
        model::opt_text(r) == value_of(value_views(v@), id@),
{
    let all = find_values(v, id);
    if all.len() > 0 {
        Some(all[0].clone())
    } else {
        None
    }
}

fn find_flag(v: &Vec<(String, Vec<String>)>, id: &str) -> (r: bool)
    ensures
        r == is_set(value_views(v@), id@),
{
    match find_value(v, id) {
        Some(s) => text_eq(s.as_str(), "true"),
        None => false,
    }
}

fn find_number(v: &Vec<(String, Vec<String>)>, id: &str) -> (r: Option<Option<usize>>)
    ensures
        r == number_of(value_views(v@), id@),
{
    match find_value(v, id) {
        None => Some(None),
        Some(s) => {
            let chars = to_chars(s.as_str());
            match parse_unsigned(chars.as_slice()) {
                Some(n) => if n <= usize::MAX as u64 {
                    Some(Some(n as usize))
                } else {
                    None
                },
                None => None,
            }
        },
    }
}

/// The command that is meant; `None` where a value that it needs is missing.
pub open spec fn interpreted(m: MatchedView) -> Option<CommandsView> {
    let name = m.subcommand;
    let v = m.values;
    if name == "run"@ {
        match (value_of(v, "name"@), value_of(v, "cmd"@), number_of(v, "instances"@)) {
            (Some(name), Some(cmd), Some(Some(instances))) => Some(CommandsView::Run {
                name,
                cmd,
                env_file: value_of(v, "env_file"@),
                clean_env: is_set(v, "clean_env"@),
                foreground: is_set(v, "foreground"@),
                args: values_of(v, "args"@),
                instances,
                no_autostart: is_set(v, "no_autostart"@),
            }),
            _ => None,
        }
    } else if name == "status"@ {
        Some(CommandsView::Status {
            name: value_of(v, "name"@),
            watch: is_set(v, "watch"@),
            json: is_set(v, "json"@),
        })
    } else if name == "start"@ {
        match (value_of(v, "name"@), number_of(v, "instances"@)) {
            (Some(name), Some(instances)) => Some(CommandsView::Start { name, instances }),
            _ => None,
        }
    } else if name == "stop"@ {
        match value_of(v, "signal"@) {
            Some(signal) => Some(CommandsView::Stop {
                name: value_of(v, "name"@),
                all: is_set(v, "all"@),
                signal,
            }),
            _ => None,
        }
    } else if name == "restart"@ {
        match value_of(v, "signal"@) {
            Some(signal) => Some(CommandsView::Restart {
                name: value_of(v, "name"@),
                all: is_set(v, "all"@),
                signal,
            }),
            _ => None,
        }
    } else if name == "delete"@ {
        Some(CommandsView::Delete { name: value_of(v, "name"@), all: is_set(v, "all"@) })
    } else if name == "logs"@ {
        match (value_of(v, "name"@), number_of(v, "instance"@), number_of(v, "lines"@)) {
            (Some(name), Some(instance), Some(Some(lines))) => Some(CommandsView::Logs {
                name,
                instance,
                follow: is_set(v, "follow"@),
                lines,
                since: value_of(v, "since"@),
                json: is_set(v, "json"@),
            }),
            _ => None,
        }
    } else if name == "export"@ {
        match value_of(v, "file"@) {
            Some(file) => Some(CommandsView::Export { file, name: value_of(v, "name"@) }),
            _ => None,
        }
    } else if name == "import"@ {
        match value_of(v, "file"@) {
            Some(file) => Some(CommandsView::Import {
                file,
                replace: is_set(v, "replace"@),
                start: is_set(v, "start"@),
            }),
            _ => None,
        }
    } else if name == "attach"@ {
        Some(CommandsView::Attach { name: value_of(v, "name"@) })
    } else if name == "list"@ {
        Some(CommandsView::List {
            watch: is_set(v, "watch"@),
            json: is_set(v, "json"@),
            name: value_of(v, "name"@),
        })
    } else if name == "daemon"@ {
        Some(CommandsView::Daemon {
            foreground: is_set(v, "foreground"@),
            watch: is_set(v, "watch"@),
        })
    } else if name == "install"@ {
        Some(CommandsView::Install)
    } else if name == "uninstall"@ {
        Some(CommandsView::Uninstall)
    } else {
        None
    }
}

/// Reads the command that is meant.
pub fn from_matched(m: &Matched) -> (r: Option<Commands>)
    ensures
        match r {
            Some(c) => interpreted(m@) == Some(c@),
            None => interpreted(m@) is None,
        },
{
    let name = m.subcommand.as_str();
    let v = &m.values;
    if text_eq(name, "run") {
        return match (find_value(v, "name"), find_value(v, "cmd"), find_number(v, "instances")) {
            (Some(name), Some(cmd), Some(Some(instances))) => Some(Commands::Run {
                name,
                cmd,
                env_file: find_value(v, "env_file"),
                clean_env: find_flag(v, "clean_env"),
                foreground: find_flag(v, "foreground"),
                args: find_values(v, "args"),
                instances,
                no_autostart: find_flag(v, "no_autostart"),
            }),
            _ => None,
        };
    }
    if text_eq(name, "status") {
        return Some(Commands::Status {
            name: find_value(v, "name"),
            watch: find_flag(v, "watch"),
            json: find_flag(v, "json"),
        });
    }
    if text_eq(name, "start") {
        return match (find_value(v, "name"), find_number(v, "instances")) {
            (Some(name), Some(instances)) => Some(Commands::Start { name, instances }),
            _ => None,
        };
    }
    if text_eq(name, "stop") {
        return match find_value(v, "signal") {
            Some(signal) => Some(Commands::Stop {
                name: find_value(v, "name"),
                all: find_flag(v, "all"),
                signal,
            }),
            _ => None,
        };
    }
    if text_eq(name, "restart") {
        return match find_value(v, "signal") {
            Some(signal) => Some(Commands::Restart {
                name: find_value(v, "name"),
                all: find_flag(v, "all"),
                signal,
            }),
            _ => None,
        };
    }
    if text_eq(name, "delete") {
        return Some(Commands::Delete { name: find_value(v, "name"), all: find_flag(v, "all") });
    }
    if text_eq(name, "logs") {
        return match (find_value(v, "name"), find_number(v, "instance"), find_number(v, "lines")) {
            (Some(name), Some(instance), Some(Some(lines))) => Some(Commands::Logs {
                name,
                instance,
                follow: find_flag(v, "follow"),
                lines,
                since: find_value(v, "since"),
                json: find_flag(v, "json"),
            }),
            _ => None,
        };
    }
    if text_eq(name, "export") {
        return match find_value(v, "file") {
            Some(file) => Some(Commands::Export { file, name: find_value(v, "name") }),
            _ => None,
        };
    }
    if text_eq(name, "import") {
        return match find_value(v, "file") {
            Some(file) => Some(Commands::Import {
                file,
                replace: find_flag(v, "replace"),
                start: find_flag(v, "start"),
            }),
            _ => None,
        };
    }
    if text_eq(name, "attach") {
        return Some(Commands::Attach { name: find_value(v, "name") });
    }
    if text_eq(name, "list") {
        return Some(Commands::List {
            watch: find_flag(v, "watch"),
            json: find_flag(v, "json"),
            name: find_value(v, "name"),
        });
    }
    if text_eq(name, "daemon") {
        return Some(Commands::Daemon {
            foreground: find_flag(v, "foreground"),
            watch: find_flag(v, "watch"),
        });
    }
    if text_eq(name, "install") {
        return Some(Commands::Install);
    }
    if text_eq(name, "uninstall") {
        return Some(Commands::Uninstall);
    }
    None
}

/// Why a command line gives no command.
#[derive(Debug)]
pub enum CliError {
    Rejected(Rejected),
    /// A command without a value that it needs.
    Incomplete,
}

impl Cli {
    /// Reads a command line, the name of the program first.
    pub fn try_parse_from(argv: &Vec<String>) -> (r: Result<Cli, CliError>)
        ensures
            ({
                let root = seq![grammar::runner_view()];
                let words = text::texts(argv@);
                match parsed(root, grammar::grammar(), words, usize::MAX as nat) {
                    Err(code) => {
                        &&& r is Err && r->Err_0 is Rejected
                        &&& r->Err_0->Rejected_0.exit_code == code
                        &&& code == 0 || code == 2
                        &&& plain_program(words) ==> (
                            r->Err_0->Rejected_0.message@,
                            r->Err_0->Rejected_0.styled@,
                        ) == rejection_texts(root, grammar::grammar(), words, usize::MAX as nat)
                    },
                    Ok(None) => r is Err && r->Err_0 is Incomplete,
                    Ok(Some(m)) => match interpreted(m) {
                        Some(c) => r is Ok && r->Ok_0.command@ == c,
                        None => r is Err && r->Err_0 is Incomplete,
                    },
                }
            }),
    {
        match parse(build(&runner(), &all_commands()), argv) {
            Ok(Some(m)) => match from_matched(&m) {
                Some(command) => Ok(Cli { command }),
                None => Err(CliError::Incomplete),
            },
            Ok(None) => Err(CliError::Incomplete),
            Err(e) => Err(CliError::Rejected(e)),
        }
    }
}

/// A request for the status of apps.
#[derive(Debug)]
pub struct StatusRequest {
    pub name: Option<String>,
    pub watch: bool,
    pub json: bool,
}

impl Commands {
    /// The request for the status that a command makes. `list` is `status` by another name,
    /// and `attach` is `status` with the live screen.
    pub fn status_request(self) -> (r: Result<StatusRequest, Commands>)
        ensures
            match self@ {
                CommandsView::Status {
                    name,
                    watch,
                    json,
                } => r is Ok && model::opt_text(r->Ok_0.name)
                    == name && r->Ok_0.watch == watch && r->Ok_0.json == json,
                CommandsView::List { watch, json, name } => r is Ok && model::opt_text(r->Ok_0.name)
                    == name && r->Ok_0.watch == watch && r->Ok_0.json == json,
                CommandsView::Attach { name } => r is Ok && model::opt_text(r->Ok_0.name) == name
                    && r->Ok_0.watch && !r->Ok_0.json,
                _ => r is Err && r->Err_0 == self,
            },
    {
        match self {
            Commands::Status { name, watch, json } => Ok(StatusRequest { name, watch, json }),
            Commands::List { watch, json, name } => Ok(StatusRequest { name, watch, json }),
            Commands::Attach { name } => Ok(StatusRequest { name, watch: true, json: false }),
            other => Err(other),
        }
    }
}

/// Whether an argument has this value, or was left out where it has none.
pub open spec fn has_value(
    v: Seq<(Seq<char>, Seq<Seq<char>>)>,
    id: Seq<char>,
    value: Option<Seq<char>>,
) -> bool {
    match value {
        Some(s) => v.contains((id, seq![s])),
        None => forall|i: int| 0 <= i < v.len() ==> (#[trigger] v[i]).0 != id,
    }
}

/// Whether a flag was given, or was not.
pub open spec fn has_flag(v: Seq<(Seq<char>, Seq<Seq<char>>)>, id: Seq<char>, on: bool) -> bool {
    has_value(
        v,
        id,
        Some(
            if on {
                "true"@
            } else {
                "false"@
            },
        ),
    )
}

/// The values of an argument are those that stand behind its own name.
pub proof fn values_go_by_their_names(
    v: Seq<(Seq<char>, Seq<Seq<char>>)>,
    id: Seq<char>,
    values: Seq<Seq<char>>,
)
    requires
        model::distinct_keys(v),
    ensures
        v.contains((id, values)) ==> values_of(v, id) == values,
        has_value(v, id, None) ==> values_of(v, id).len() == 0,
{
    let keys = ids(v);
    text::first_index_properties(keys, id);
    let f = text::first_index(keys, id);
    if v.contains((id, values)) {
        let i = choose|i: int| 0 <= i < v.len() && v[i] == (id, values);
        assert(keys[i] == id);
        assert(f < keys.len());
        assert(keys[f] == v[f].0);
        if f < i {
            assert(v[f].0 != v[i].0);
        }
        if i < f {
            assert(keys[i] != id);
        }
    }
    if has_value(v, id, None) && f < v.len() {
        assert(keys[f] == v[f].0);
    }
}

proof fn value_is_found(v: Seq<(Seq<char>, Seq<Seq<char>>)>, id: Seq<char>, value: Option<Seq<char>>)
    requires
        model::distinct_keys(v),
        has_value(v, id, value),
    ensures
        value_of(v, id) == value,
{
    match value {
        Some(s) => {
            values_go_by_their_names(v, id, seq![s]);
        },
        None => {
            values_go_by_their_names(v, id, Seq::empty());
        },
    }
}

proof fn flag_is_found(v: Seq<(Seq<char>, Seq<Seq<char>>)>, id: Seq<char>, on: bool)
    requires
        model::distinct_keys(v),
        has_flag(v, id, on),
    ensures
        is_set(v, id) == on,
{
    reveal_strlit("true");
    reveal_strlit("false");
    assert("true"@.len() != "false"@.len());
    value_is_found(
        v,
        id,
        Some(
            if on {
                "true"@
            } else {
                "false"@
            },
        ),
    );
}

/// A number of an argument, as it is written.
pub open spec fn written(n: Option<usize>) -> Option<Seq<char>> {
    match n {
        Some(n) => Some(text::decimal(n as nat)),
        None => None,
    }
}

proof fn number_is_found(v: Seq<(Seq<char>, Seq<Seq<char>>)>, id: Seq<char>, n: Option<usize>)
    requires
        model::distinct_keys(v),
        has_value(v, id, written(n)),
    ensures
        number_of(v, id) == Some(n),
{
    value_is_found(v, id, written(n));
    if let Some(k) = n {
        text::decimal_reads_back(k as nat);
        let none = Seq::<char>::empty();
        text::zeros_in_front_count_nothing(none, k as nat, usize::MAX as nat);
        assert(none + text::decimal(k as nat) =~= text::decimal(k as nat));
    }
}

proof fn command_names_differ()
    ensures
        "status"@ != "run"@,
        "start"@ != "run"@ && "start"@ != "status"@,
        "stop"@ != "run"@ && "stop"@ != "status"@ && "stop"@ != "start"@,
        "restart"@ != "run"@ && "restart"@ != "status"@ && "restart"@ != "start"@ && "restart"@ != "stop"@,
        "delete"@ != "run"@ && "delete"@ != "status"@ && "delete"@ != "start"@ && "delete"@ != "stop"@
            && "delete"@ != "restart"@,
        "logs"@ != "run"@ && "logs"@ != "status"@ && "logs"@ != "start"@ && "logs"@ != "stop"@ && "logs"@
            != "restart"@ && "logs"@ != "delete"@,
        "export"@ != "run"@ && "export"@ != "status"@ && "export"@ != "start"@ && "export"@ != "stop"@
            && "export"@ != "restart"@ && "export"@ != "delete"@ && "export"@ != "logs"@,
        "import"@ != "run"@ && "import"@ != "status"@ && "import"@ != "start"@ && "import"@ != "stop"@
            && "import"@ != "restart"@ && "import"@ != "delete"@ && "import"@ != "logs"@ && "import"@
            != "export"@,
{
    reveal_strlit("run");
    reveal_strlit("status");
    reveal_strlit("start");
    reveal_strlit("stop");
    reveal_strlit("restart");
    reveal_strlit("delete");
    reveal_strlit("logs");
    reveal_strlit("export");
    reveal_strlit("import");
    assert("status"@.len() != "run"@.len());
    assert("start"@.len() != "run"@.len());
    assert("start"@.len() != "status"@.len());
    assert("stop"@.len() != "run"@.len());
    assert("stop"@.len() != "status"@.len());
    assert("stop"@.len() != "start"@.len());
    assert("restart"@.len() != "run"@.len());
    assert("restart"@.len() != "status"@.len());
    assert("restart"@.len() != "start"@.len());
    assert("restart"@.len() != "stop"@.len());
    assert("delete"@.len() != "run"@.len());
    assert("delete"@[0] != "status"@[0]);
    assert("delete"@.len() != "start"@.len());
    assert("delete"@.len() != "stop"@.len());
    assert("delete"@.len() != "restart"@.len());
    assert("logs"@.len() != "run"@.len());
    assert("logs"@.len() != "status"@.len());
    assert("logs"@.len() != "start"@.len());
    assert("logs"@[0] != "stop"@[0]);
    assert("logs"@.len() != "restart"@.len());
    assert("logs"@.len() != "delete"@.len());
    assert("export"@.len() != "run"@.len());
    assert("export"@[0] != "status"@[0]);
    assert("export"@.len() != "start"@.len());
    assert("export"@.len() != "stop"@.len());
    assert("export"@.len() != "restart"@.len());
    assert("export"@[0] != "delete"@[0]);
    assert("export"@.len() != "logs"@.len());
    assert("import"@.len() != "run"@.len());
    assert("import"@[0] != "status"@[0]);
    assert("import"@.len() != "start"@.len());
    assert("import"@.len() != "stop"@.len());
    assert("import"@.len() != "restart"@.len());
    assert("import"@[0] != "delete"@[0]);
    assert("import"@.len() != "logs"@.len());
    assert("import"@[0] != "export"@[0]);
}

/// `run` takes each of its arguments for what it is given for.
pub proof fn run_is_taken_as_given(
    v: Seq<(Seq<char>, Seq<Seq<char>>)>,
    name: Seq<char>,
    cmd: Seq<char>,
    args: Seq<Seq<char>>,
    instances: usize,
    env_file: Option<Seq<char>>,
    clean_env: bool,
    foreground: bool,
    no_autostart: bool,
)
    requires
        model::distinct_keys(v),
        has_value(v, "name"@, Some(name)),
        has_value(v, "cmd"@, Some(cmd)),
        v.contains(("args"@, args)),
        has_value(v, "instances"@, written(Some(instances))),
        has_value(v, "env_file"@, env_file),
        has_flag(v, "clean_env"@, clean_env),
        has_flag(v, "foreground"@, foreground),
        has_flag(v, "no_autostart"@, no_autostart),
    ensures
        interpreted(MatchedView { subcommand: "run"@, values: v }) == Some(
            CommandsView::Run {
                name,
                cmd,
                env_file,
                clean_env,
                foreground,
                args,
                instances,
                no_autostart,
            },
        ),
{
    value_is_found(v, "name"@, Some(name));
    value_is_found(v, "cmd"@, Some(cmd));
    values_go_by_their_names(v, "args"@, args);
    number_is_found(v, "instances"@, Some(instances));
    value_is_found(v, "env_file"@, env_file);
    flag_is_found(v, "clean_env"@, clean_env);
    flag_is_found(v, "foreground"@, foreground);
    flag_is_found(v, "no_autostart"@, no_autostart);
}

/// `start`, `stop`, `restart` and `delete` are about the app that is named, or about all, with
/// the number of instances or the signal that is given.
pub proof fn app_commands_are_taken_as_given(
    v: Seq<(Seq<char>, Seq<Seq<char>>)>,
    name: Seq<char>,
    instances: Option<usize>,
    target: Option<Seq<char>>,
    all: bool,
    signal: Seq<char>,
)
    requires
        model::distinct_keys(v),
        has_value(v, "name"@, target),
        has_value(v, "instances"@, written(instances)),
        has_flag(v, "all"@, all),
        has_value(v, "signal"@, Some(signal)),
    ensures
        target == Some(name) ==> interpreted(MatchedView { subcommand: "start"@, values: v }) == Some(
            CommandsView::Start { name, instances },
        ),
        interpreted(MatchedView { subcommand: "stop"@, values: v }) == Some(
            CommandsView::Stop { name: target, all, signal },
        ),
        interpreted(MatchedView { subcommand: "restart"@, values: v }) == Some(
            CommandsView::Restart { name: target, all, signal },
        ),
        interpreted(MatchedView { subcommand: "delete"@, values: v }) == Some(
            CommandsView::Delete { name: target, all },
        ),
{
    command_names_differ();
    value_is_found(v, "name"@, target);
    number_is_found(v, "instances"@, instances);
    flag_is_found(v, "all"@, all);
    value_is_found(v, "signal"@, Some(signal));
}

/// `logs` takes each of its arguments for what it is given for.
pub proof fn logs_is_taken_as_given(
    v: Seq<(Seq<char>, Seq<Seq<char>>)>,
    name: Seq<char>,
    instance: Option<usize>,
    follow: bool,
    lines: usize,
    since: Option<Seq<char>>,
    json: bool,
)
    requires
        model::distinct_keys(v),
        has_value(v, "name"@, Some(name)),
        has_value(v, "instance"@, written(instance)),
        has_flag(v, "follow"@, follow),
        has_value(v, "lines"@, written(Some(lines))),
        has_value(v, "since"@, since),
        has_flag(v, "json"@, json),
    ensures
        interpreted(MatchedView { subcommand: "logs"@, values: v }) == Some(
            CommandsView::Logs { name, instance, follow, lines, since, json },
        ),
{
    command_names_differ();
    value_is_found(v, "name"@, Some(name));
    number_is_found(v, "instance"@, instance);
    flag_is_found(v, "follow"@, follow);
    number_is_found(v, "lines"@, Some(lines));
    value_is_found(v, "since"@, since);
    flag_is_found(v, "json"@, json);
}

/// `export` and `import` are about the file that is given.
pub proof fn files_are_taken_as_given(
    v: Seq<(Seq<char>, Seq<Seq<char>>)>,
    file: Seq<char>,
    name: Option<Seq<char>>,
    replace: bool,
    start: bool,
)
    requires
        model::distinct_keys(v),
        has_value(v, "file"@, Some(file)),
        has_value(v, "name"@, name),
        has_flag(v, "replace"@, replace),
        has_flag(v, "start"@, start),
    ensures
        interpreted(MatchedView { subcommand: "export"@, values: v }) == Some(
            CommandsView::Export { file, name },
        ),
        interpreted(MatchedView { subcommand: "import"@, values: v }) == Some(
            CommandsView::Import { file, replace, start },
        ),
{
    command_names_differ();
    value_is_found(v, "file"@, Some(file));
    value_is_found(v, "name"@, name);
    flag_is_found(v, "replace"@, replace);
    flag_is_found(v, "start"@, start);
}

proof fn screen_names_differ()
    ensures
        "attach"@ != "run"@,
        "attach"@ != "status"@,
        "attach"@ != "start"@,
        "attach"@ != "stop"@,
        "attach"@ != "restart"@,
        "attach"@ != "delete"@,
        "attach"@ != "logs"@,
        "attach"@ != "export"@,
        "attach"@ != "import"@,
        "list"@ != "run"@,
        "list"@ != "status"@,
        "list"@ != "start"@,
        "list"@ != "stop"@,
        "list"@ != "restart"@,
        "list"@ != "delete"@,
        "list"@ != "logs"@,
        "list"@ != "export"@,
        "list"@ != "import"@,
        "list"@ != "attach"@,
        "daemon"@ != "run"@,
        "daemon"@ != "status"@,
        "daemon"@ != "start"@,
        "daemon"@ != "stop"@,
        "daemon"@ != "restart"@,
        "daemon"@ != "delete"@,
        "daemon"@ != "logs"@,
        "daemon"@ != "export"@,
        "daemon"@ != "import"@,
        "daemon"@ != "attach"@,
        "daemon"@ != "list"@,
{
    reveal_strlit("run");
    reveal_strlit("status");
    reveal_strlit("start");
    reveal_strlit("stop");
    reveal_strlit("restart");
    reveal_strlit("delete");
    reveal_strlit("logs");
    reveal_strlit("export");
    reveal_strlit("import");
    reveal_strlit("attach");
    reveal_strlit("list");
    reveal_strlit("daemon");
    assert("attach"@.len() != "run"@.len());
    assert("attach"@[0] != "status"@[0]);
    assert("attach"@.len() != "start"@.len());
    assert("attach"@.len() != "stop"@.len());
    assert("attach"@.len() != "restart"@.len());
    assert("attach"@[0] != "delete"@[0]);
    assert("attach"@.len() != "logs"@.len());
    assert("attach"@[0] != "export"@[0]);
    assert("attach"@[0] != "import"@[0]);
    assert("list"@.len() != "run"@.len());
    assert("list"@.len() != "status"@.len());
    assert("list"@.len() != "start"@.len());
    assert("list"@[0] != "stop"@[0]);
    assert("list"@.len() != "restart"@.len());
    assert("list"@.len() != "delete"@.len());
    assert("list"@[1] != "logs"@[1]);
    assert("list"@.len() != "export"@.len());
    assert("list"@.len() != "import"@.len());
    assert("list"@.len() != "attach"@.len());
    assert("daemon"@.len() != "run"@.len());
    assert("daemon"@[0] != "status"@[0]);
    assert("daemon"@.len() != "start"@.len());
    assert("daemon"@.len() != "stop"@.len());
    assert("daemon"@.len() != "restart"@.len());
    assert("daemon"@[1] != "delete"@[1]);
    assert("daemon"@.len() != "logs"@.len());
    assert("daemon"@[0] != "export"@[0]);
    assert("daemon"@[0] != "import"@[0]);
    assert("daemon"@[0] != "attach"@[0]);
    assert("daemon"@.len() != "list"@.len());
}

/// `status`, `list` and `attach` are about the app that is named, and `daemon` stays in the
/// foreground or shows its screen, where that is asked for.
pub proof fn screens_are_taken_as_given(
    v: Seq<(Seq<char>, Seq<Seq<char>>)>,
    name: Option<Seq<char>>,
    watch: bool,
    json: bool,
    foreground: bool,
)
    requires
        model::distinct_keys(v),
        has_value(v, "name"@, name),
        has_flag(v, "watch"@, watch),
        has_flag(v, "json"@, json),
        has_flag(v, "foreground"@, foreground),
    ensures
        interpreted(MatchedView { subcommand: "status"@, values: v }) == Some(
            CommandsView::Status { name, watch, json },
        ),
        interpreted(MatchedView { subcommand: "list"@, values: v }) == Some(
            CommandsView::List { watch, json, name },
        ),
        interpreted(MatchedView { subcommand: "attach"@, values: v }) == Some(
            CommandsView::Attach { name },
        ),
        interpreted(MatchedView { subcommand: "daemon"@, values: v }) == Some(
            CommandsView::Daemon { foreground, watch },
        ),
{
    command_names_differ();
    screen_names_differ();
    value_is_found(v, "name"@, name);
    flag_is_found(v, "watch"@, watch);
    flag_is_found(v, "json"@, json);
    flag_is_found(v, "foreground"@, foreground);
}

/// What a command says is all of its fields.
pub proof fn commands_say_all_of_their_fields(c: Commands, s: String)
    ensures
        model::opt_text(Some(s)) == Some(s@),
        model::opt_text(None) is None,
        c matches Commands::Run {
            name,
            cmd,
            env_file,
            clean_env,
            foreground,
            args,
            instances,
            no_autostart,
        } ==> c@ == (CommandsView::Run {
            name: name@,
            cmd: cmd@,
            env_file: model::opt_text(env_file),
            clean_env,
            foreground,
            args: text::texts(args@),
            instances,
            no_autostart,
        }),
        c matches Commands::Start { name, instances } ==> c@ == (CommandsView::Start {
            name: name@,
            instances,
        }),
        c matches Commands::Stop { name, all, signal } ==> c@ == (CommandsView::Stop {
            name: model::opt_text(name),
            all,
            signal: signal@,
        }),
        c matches Commands::Restart { name, all, signal } ==> c@ == (CommandsView::Restart {
            name: model::opt_text(name),
            all,
            signal: signal@,
        }),
        c matches Commands::Delete { name, all } ==> c@ == (CommandsView::Delete {
            name: model::opt_text(name),
            all,
        }),
        c matches Commands::Logs { name, instance, follow, lines, since, json } ==> c@ == (CommandsView::Logs {
            name: name@,
            instance,
            follow,
            lines,
            since: model::opt_text(since),
            json,
        }),
        c matches Commands::Export { file, name } ==> c@ == (CommandsView::Export {
            file: file@,
            name: model::opt_text(name),
        }),
        c matches Commands::Import { file, replace, start } ==> c@ == (CommandsView::Import {
            file: file@,
            replace,
            start,
        }),
        c matches Commands::Status { name, watch, json } ==> c@ == (CommandsView::Status {
            name: model::opt_text(name),
            watch,
            json,
        }),
{
}

} // verus!
