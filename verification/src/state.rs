//! Where each process keeps its persistent state.
use vstd::prelude::*;
use crate::config::{join_path, path_join};
use crate::text::{chars_of, push_all, string_of};
use crate::types::ProcessId;

verus! {

/// `{state_dir}/{namespace}/{app}/{proc}.db`
pub open spec fn process_db_path(state_dir: Seq<char>, ns: Seq<char>, app: Seq<char>, proc: Seq<char>) -> Seq<char> {
    path_join(path_join(path_join(state_dir, ns), app), proc + ".db"@)
}

/// The SQLite database file of a process (see [`process_db_path`]).
pub fn db_path_for_process(state_dir: &str, process: &ProcessId) -> (r: String)
    ensures
        r@ == process_db_path(state_dir@, process.namespace@, process.app@, process.proc@),
{
    let a = join_path(state_dir, process.namespace.as_str());
    let b = join_path(a.as_str(), process.app.as_str());
    let mut file: Vec<char> = Vec::new();
    push_all(&mut file, &chars_of(process.proc.as_str()));
    push_all(&mut file, &chars_of(".db"));
    let f = string_of(&file);
    join_path(b.as_str(), f.as_str())
}

} // verus!
