//! Where the runner keeps its files. A path is the list of parts that are joined, one
//! after the other, onto the home directory.
use vstd::prelude::*;
use vstd::string::*;

use crate::text;
use crate::text::write_decimal;

verus! {

/// The parts of the directory that holds everything.
pub open spec fn base_parts() -> Seq<Seq<char>> {
    seq![".alwaysrunning"@]
}

/// The directory that holds everything.
pub fn base_dir() -> (r: Vec<String>)
    ensures
        text::texts(r@) == base_parts(),
{
    let r = vec![".alwaysrunning".to_owned()];
    assert(text::texts(r@) =~= base_parts());
    r
}

/// One part more.
fn join(mut path: Vec<String>, part: String) -> (r: Vec<String>)
    ensures
        text::texts(r@) == text::texts(path@).push(part@),
{
    let ghost before = path@;
    let ghost p = part@;
    path.push(part);
    assert(text::texts(path@) =~= text::texts(before).push(p));
    path
}

/// The directories that must be there before anything else.
pub fn ensure_dirs() -> (r: Vec<Vec<String>>)
    ensures
        r@.len() == 2,
        text::texts(r@[0]@) == base_parts().push("apps"@),
        text::texts(r@[1]@) == base_parts().push("run"@),
{
    vec![join(base_dir(), "apps".to_owned()), join(base_dir(), "run".to_owned())]
}

/// The file of the registered apps.
pub fn state_path() -> (r: Vec<String>)
    ensures
        text::texts(r@) == base_parts().push("state.json"@),
{
    join(base_dir(), "state.json".to_owned())
}

/// The file of what is known of their processes.
pub fn runtime_path() -> (r: Vec<String>)
    ensures
        text::texts(r@) == base_parts().push("runtime.json"@),
{
    join(base_dir(), "runtime.json".to_owned())
}

/// The file that holds the process of the daemon.
pub fn pid_path() -> (r: Vec<String>)
    ensures
        text::texts(r@) == base_parts().push("run"@).push("daemon.pid"@),
{
    join(join(base_dir(), "run".to_owned()), "daemon.pid".to_owned())
}

/// The parts of the directory of an app.
pub open spec fn app_parts(name: Seq<char>) -> Seq<Seq<char>> {
    base_parts().push("apps"@).push(name)
}

/// The directory of an app.
pub fn app_dir(name: &str) -> (r: Vec<String>)
    ensures
        text::texts(r@) == app_parts(name@),
{
    join(join(base_dir(), "apps".to_owned()), name.to_owned())
}

/// The name of the log file of an instance.
pub open spec fn log_name(idx: nat) -> Seq<char> {
    "instance-"@ + text::decimal(idx) + ".log"@
}

/// The parts of the log file of an instance.
pub open spec fn log_parts(name: Seq<char>, idx: nat) -> Seq<Seq<char>> {
    app_parts(name).push("logs"@).push(log_name(idx))
}

/// The log file of an instance of an app.
pub fn log_path(name: &str, idx: usize) -> (r: Vec<String>)
    ensures
        text::texts(r@) == log_parts(name@, idx as nat),
{
    let file = "instance-".to_owned().concat(write_decimal(idx as u64).as_str()).concat(".log");
    join(join(app_dir(name), "logs".to_owned()), file)
}

/// The parts of the path of a log tell the name of the app and the index of the instance: they
/// are the same for no two instances. Different parts may still name one file, as where the
/// names of two apps differ by a `./` in front.
pub proof fn log_paths_differ(name1: Seq<char>, idx1: nat, name2: Seq<char>, idx2: nat)
    ensures
        log_parts(name1, idx1) == log_parts(name2, idx2) <==> name1 == name2 && idx1 == idx2,
{
    if log_parts(name1, idx1) == log_parts(name2, idx2) {
        let p = log_parts(name1, idx1);
        let q = log_parts(name2, idx2);
        assert(p[2] == name1 && q[2] == name2);
        assert(p[4] == log_name(idx1) && q[4] == log_name(idx2));
        let front = "instance-"@;
        let back = ".log"@;
        let d1 = text::decimal(idx1);
        let d2 = text::decimal(idx2);
        assert((front + d1 + back).len() == front.len() + d1.len() + back.len());
        assert(d1.len() == d2.len());
        assert(d1 =~= log_name(idx1).subrange(front.len() as int, (front.len() + d1.len()) as int));
        assert(d2 =~= log_name(idx2).subrange(front.len() as int, (front.len() + d2.len()) as int));
        text::decimal_reads_back(idx1);
        text::decimal_reads_back(idx2);
    }
}

/// The log of an instance stands in the directory of its app, under a name that holds its
/// index as it is.
pub proof fn log_stands_with_its_app(name: Seq<char>, idx: nat)
    ensures
        log_parts(name, idx).len() == 5,
        log_parts(name, idx)[0] == ".alwaysrunning"@,
        log_parts(name, idx)[1] == "apps"@,
        log_parts(name, idx)[2] == name,
        log_parts(name, idx)[3] == "logs"@,
        log_parts(name, idx)[4] == "instance-"@ + text::decimal(idx) + ".log"@,
        app_parts(name).is_prefix_of(log_parts(name, idx)),
{
    assert(log_parts(name, idx).subrange(0, 3) =~= app_parts(name));
}

} // verus!
