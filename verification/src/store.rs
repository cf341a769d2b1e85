//! The files of the runner: what is taken from them, and how they are written.
use vstd::prelude::*;
use vstd::string::*;

use crate::model;
use crate::model::{AppView, Runtime, RuntimeV0, State};
use crate::paths;
use crate::paths::{base_dir, runtime_path, state_path};
use crate::text;

verus! {

/// The registered apps: those in the file, or none where it cannot be read.
pub fn read_state(file: Option<State>) -> (r: State)
    ensures
        r@ == (match file {
            Some(s) => s@,
            None => Seq::<AppView>::empty(),
        }),
{
    match file {
        Some(s) => s,
        None => State::default(),
    }
}

/// The processes of the apps: those in the file, in today's format or else in the first one,
/// or none where it can be read as neither.
pub fn read_runtime(file: Option<Runtime>, first_format: Option<RuntimeV0>) -> (r: Runtime)
    ensures
        r@ == (match file {
            Some(s) => s@,
            None => match first_format {
                Some(s) => model::upgraded(s@),
                None => Seq::empty(),
            },
        }),
        (file is Some ==> file->0.wf()) && (first_format is Some ==> model::first_format_wf(
            first_format->0@,
        )) ==> r.wf(),
{
    match file {
        Some(s) => s,
        None => match first_format {
            Some(s) => {
                proof {
                    if model::first_format_wf(s@) {
                        model::upgraded_keeps_order(s@);
                    }
                }
                Runtime::from(s)
            },
            None => Runtime::default(),
        },
    }
}

/// How a file is replaced: all of it is written and synced to another file, which is then
/// renamed, so that at any time the file is either the old one or the new one.
#[derive(Debug)]
pub struct AtomicWrite {
    pub temp: Vec<String>,
    pub target: Vec<String>,
}

/// Plans the writing of a file.
fn write_json_atomic(target: Vec<String>, temp_name: &str) -> (r: AtomicWrite)
    ensures
        text::texts(r.target@) == text::texts(target@),
        text::texts(r.temp@) == paths::base_parts().push(temp_name@),
{
    let mut temp = base_dir();
    let ghost before = temp@;
    temp.push(temp_name.to_owned());
    assert(text::texts(temp@) =~= text::texts(before).push(temp_name@));
    AtomicWrite { temp, target }
}

/// Plans the writing of the registered apps.
pub fn write_state() -> (r: AtomicWrite)
    ensures
        text::texts(r.target@) == paths::base_parts().push("state.json"@),
        text::texts(r.temp@) == paths::base_parts().push("state.tmp"@),
{
    write_json_atomic(state_path(), "state.tmp")
}

/// Plans the writing of the processes of the apps.
pub fn write_runtime() -> (r: AtomicWrite)
    ensures
        text::texts(r.target@) == paths::base_parts().push("runtime.json"@),
        text::texts(r.temp@) == paths::base_parts().push("runtime.tmp"@),
{
    write_json_atomic(runtime_path(), "runtime.tmp")
}

} // verus!
