//! Decisions of the actor that runs an app's handler: which syscall a request
//! names, what follows each syscall, where a handler file lives in its
//! package, and how far each event of the actor has got.
use vstd::prelude::*;
use crate::assoc::AssocMap;
use crate::text::{chars_of, str_eq, string_of};
use crate::scheduler::{Proposal, ProposalModel, Syscall, SyscallModel};
use crate::types::{EventId, EventIdModel, HandlerId, HandlerIdModel, ProcessId, ProcessIdModel};

verus! {

/// The syscalls a handler can make, by the name it uses for them.
#[derive(Debug, Clone, Copy, PartialEq, Eq, Structural)]
pub enum SyscallKind {
    KvGet,
    KvSet,
    SqlExec,
    SqlQuery,
    Call,
    Notify,
    Register,
}

/// The syscall named `s`.
pub open spec fn syscall_named(s: Seq<char>) -> Option<SyscallKind> {
    if s == "kv_get"@ {
        Some(SyscallKind::KvGet)
    } else if s == "kv_set"@ {
        Some(SyscallKind::KvSet)
    } else if s == "sql_exec"@ {
        Some(SyscallKind::SqlExec)
    } else if s == "sql_query"@ {
        Some(SyscallKind::SqlQuery)
    } else if s == "call"@ {
        Some(SyscallKind::Call)
    } else if s == "notify"@ {
        Some(SyscallKind::Notify)
    } else if s == "register"@ {
        Some(SyscallKind::Register)
    } else {
        None
    }
}

/// Reads a syscall's name (see [`syscall_named`]).
pub fn syscall_kind(name: &str) -> (r: Option<SyscallKind>)
    ensures
        r == syscall_named(name@),
{
    if str_eq(name, "kv_get") {
        Some(SyscallKind::KvGet)
    } else if str_eq(name, "kv_set") {
        Some(SyscallKind::KvSet)
    } else if str_eq(name, "sql_exec") {
        Some(SyscallKind::SqlExec)
    } else if str_eq(name, "sql_query") {
        Some(SyscallKind::SqlQuery)
    } else if str_eq(name, "call") {
        Some(SyscallKind::Call)
    } else if str_eq(name, "notify") {
        Some(SyscallKind::Notify)
    } else if str_eq(name, "register") {
        Some(SyscallKind::Register)
    } else {
        None
    }
}

/// A handler file's path inside its package: the path less one leading `./`.
pub open spec fn asset_path_of(p: Seq<char>) -> Seq<char> {
    if p.len() >= 2 && p[0] == '.' && p[1] == '/' {
        p.skip(2)
    } else {
        p
    }
}

/// Where a handler file lives in its package (see [`asset_path_of`]).
pub fn asset_path(path: &str) -> (r: String)
    ensures
        r@ == asset_path_of(path@),
{
    let cs = chars_of(path);
    if cs.len() >= 2 && cs[0] == '.' && cs[1] == '/' {
        let mut rest: Vec<char> = Vec::new();
        let mut i: usize = 2;
        while i < cs.len()
            invariant
                2 <= i <= cs.len(),
                rest@ == cs@.subrange(2, i as int),
            decreases cs.len() - i,
        {
            rest.push(cs[i]);
            assert(rest@ =~= cs@.subrange(2, i + 1));
            i = i + 1;
        }
        assert(rest@ =~= cs@.skip(2));
        string_of(&rest)
    } else {
        String::from_str(path)
    }
}

/// How many receipts each event of an actor has made so far.
pub struct EventCursor {
    seqs: AssocMap<EventId, u64>,
}

impl View for EventCursor {
    type V = Map<EventIdModel, u64>;

    closed spec fn view(&self) -> Map<EventIdModel, u64> {
        self.seqs.model()
    }
}

impl EventCursor {
    pub closed spec fn wf(&self) -> bool {
        self.seqs.wf()
    }

    /// No event has made a receipt.
    pub fn new() -> (r: EventCursor)
        ensures
            r.wf(),
            r@ == Map::<EventIdModel, u64>::empty(),
    {
        EventCursor { seqs: AssocMap::new() }
    }

    /// The position of the next receipt of `event`: what was recorded for
    /// it, or 0, which is then recorded.
    pub fn position(&mut self, event: &EventId) -> (r: u64)
        requires
            old(self).wf(),
        ensures
            final(self).wf(),
            r == if old(self)@.contains_key(event@) { old(self)@[event@] } else { 0 },
            final(self)@ == old(self)@.insert(event@, r),
    {
        let i = self.seqs.entry(event, 0);
        let r = *self.seqs.value_at(i);
        assert(self@ =~= old(self)@.insert(event@, r));
        r
    }

    /// Records `to` as the position of the next receipt of `event`.
    pub fn advance(&mut self, event: EventId, to: u64)
        requires
            old(self).wf(),
        ensures
            final(self).wf(),
            final(self)@ == old(self)@.insert(event@, to),
    {
        self.seqs.insert(event, to);
    }
}

/// Where the process manager sends a proposal.
#[derive(Debug, Clone, Copy, PartialEq, Eq, Structural)]
pub enum Route {
    /// To the stateless front end registered for the process.
    Stateless,
    /// To the running actor of the process.
    Executor,
    /// To an actor that has to be started first.
    Spawn,
}

/// A stateless front end takes precedence over a running actor; with neither,
/// an actor is started.
pub fn route(stateless_registered: bool, executor_running: bool) -> (r: Route)
    ensures
        r == if stateless_registered {
            Route::Stateless
        } else if executor_running {
            Route::Executor
        } else {
            Route::Spawn
        },
{
    if stateless_registered {
        Route::Stateless
    } else if executor_running {
        Route::Executor
    } else {
        Route::Spawn
    }
}

/// The registrations after `p` is registered to `h`, and whether that was
/// accepted: a new process is added; a registered one is left as it is, and
/// accepted only if it already runs `h`.
pub open spec fn registration(m: Map<ProcessIdModel, HandlerIdModel>, p: ProcessIdModel, h: HandlerIdModel) -> (Map<ProcessIdModel, HandlerIdModel>, bool) {
    if !m.contains_key(p) {
        (m.insert(p, h), true)
    } else {
        (m, m[p] == h)
    }
}

/// Why a process could not be registered.
#[derive(Debug, Clone, Copy, PartialEq, Eq, Structural)]
pub enum RegisterError {
    /// The process is already registered to a different handler.
    HandlerMismatch,
}

impl RegisterError {
    /// The human-readable message for this error.
    pub fn message(&self) -> (r: String)
        ensures
            r@ == "process is already registered to a different handler"@,
    {
        String::from_str("process is already registered to a different handler")
    }
}

/// The handler each registered process runs.
pub struct HandlerRegistry {
    map: AssocMap<ProcessId, HandlerId>,
}

impl View for HandlerRegistry {
    type V = Map<ProcessIdModel, HandlerIdModel>;

    closed spec fn view(&self) -> Map<ProcessIdModel, HandlerIdModel> {
        self.map.model()
    }
}

impl HandlerRegistry {
    pub closed spec fn wf(&self) -> bool {
        self.map.wf()
    }

    /// No process is registered.
    pub fn new() -> (r: HandlerRegistry)
        ensures
            r.wf(),
            r@ == Map::<ProcessIdModel, HandlerIdModel>::empty(),
    {
        HandlerRegistry { map: AssocMap::new() }
    }

    /// Registers `process` to run `handler`. Registering a process again to
    /// the same handler changes nothing; registering it to a different handler
    /// is refused, and the first registration stays.
    pub fn register(&mut self, process: ProcessId, handler: HandlerId) -> (r: Result<(), RegisterError>)
        requires
            old(self).wf(),
        ensures
            final(self).wf(),
            final(self)@ == registration(old(self)@, process@, handler@).0,
            r is Ok <==> registration(old(self)@, process@, handler@).1,
    {
        match self.map.get(&process) {
            Some(h) => {
                if h.same(&handler) {
                    Ok(())
                } else {
                    Err(RegisterError::HandlerMismatch)
                }
            },
            None => {
                self.map.insert(process, handler);
                Ok(())
            },
        }
    }

    /// The handler `process` was registered to, if any.
    pub fn handler_of(&self, process: &ProcessId) -> (r: Option<HandlerId>)
        requires
            self.wf(),
        ensures
            match r {
                Some(h) => self@.contains_key(process@) && h@ == self@[process@],
                None => !self@.contains_key(process@),
            },
    {
        match self.map.get(process) {
            Some(h) => Some(h.duplicate()),
            None => None,
        }
    }
}


/// What the actor does once a syscall's receipt is recorded, before the
/// event's thread goes on.
pub enum ExecutorStep {
    /// Read `key` from the process's state; resume with its value (nil if unset).
    ReadKey(String),
    /// Write the value under the key; resume with nil.
    WriteKey(String, String),
    /// Run the statement; resume with its result.
    SqlExec(String, Vec<u8>),
    /// Run the query; resume with its rows.
    SqlQuery(String, Vec<u8>),
    /// Resume with nil.
    ResumeNil,
    /// Schedule the call; the event waits for its result.
    ScheduleCall(Proposal),
    /// Register the process; resume with its name, or the error.
    Register(ProcessId, HandlerId),
}

/// The model of an [`ExecutorStep`].
pub enum ExecutorStepModel {
    ReadKey(Seq<char>),
    WriteKey(Seq<char>, Seq<char>),
    SqlExec(Seq<char>, Seq<u8>),
    SqlQuery(Seq<char>, Seq<u8>),
    ResumeNil,
    ScheduleCall(ProposalModel),
    Register(ProcessIdModel, HandlerIdModel),
}

impl View for ExecutorStep {
    type V = ExecutorStepModel;

    open spec fn view(&self) -> ExecutorStepModel {
        match self {
            ExecutorStep::ReadKey(k) => ExecutorStepModel::ReadKey(k@),
            ExecutorStep::WriteKey(k, v) => ExecutorStepModel::WriteKey(k@, v@),
            ExecutorStep::SqlExec(q, p) => ExecutorStepModel::SqlExec(q@, p@),
            ExecutorStep::SqlQuery(q, p) => ExecutorStepModel::SqlQuery(q@, p@),
            ExecutorStep::ResumeNil => ExecutorStepModel::ResumeNil,
            ExecutorStep::ScheduleCall(p) => ExecutorStepModel::ScheduleCall(p@),
            ExecutorStep::Register(p, h) => ExecutorStepModel::Register(p@, h@),
        }
    }
}

/// The step after a syscall: a key/value read reads the key, a write writes
/// it, SQL runs, a notification resumes at once (its proposal is already
/// queued by the scheduler), a call is scheduled and suspends the event, and
/// a registration registers the process.
pub open spec fn step_of(s: SyscallModel) -> ExecutorStepModel {
    match s {
        SyscallModel::KVRead { key, .. } => ExecutorStepModel::ReadKey(key),
        SyscallModel::KVWrite { key, new_value } => ExecutorStepModel::WriteKey(key, new_value),
        SyscallModel::SqlExec { sql, params } => ExecutorStepModel::SqlExec(sql, params),
        SyscallModel::SqlQuery { sql, params } => ExecutorStepModel::SqlQuery(sql, params),
        SyscallModel::Notify { .. } => ExecutorStepModel::ResumeNil,
        SyscallModel::Call { proposal } => ExecutorStepModel::ScheduleCall(proposal),
        SyscallModel::Register { process, handler } => ExecutorStepModel::Register(process, handler),
    }
}

/// The step after `syscall` (see [`step_of`]).
pub fn executor_step(syscall: Syscall) -> (r: ExecutorStep)
    ensures
        r@ == step_of(syscall@),
{
    match syscall {
        Syscall::KVRead { key, .. } => ExecutorStep::ReadKey(key),
        Syscall::KVWrite { key, new_value } => ExecutorStep::WriteKey(key, new_value),
        Syscall::SqlExec { sql, params } => ExecutorStep::SqlExec(sql, params),
        Syscall::SqlQuery { sql, params } => ExecutorStep::SqlQuery(sql, params),
        Syscall::Notify { .. } => ExecutorStep::ResumeNil,
        Syscall::Call { proposal } => ExecutorStep::ScheduleCall(proposal),
        Syscall::Register { process, handler } => ExecutorStep::Register(process, handler),
    }
}

/// Whether the event's thread goes on at once after `step` (all but a call).
pub fn step_resumes(step: &ExecutorStep) -> (r: bool)
    ensures
        r == !(step@ is ScheduleCall),
{
    match step {
        ExecutorStep::ScheduleCall(_) => false,
        _ => true,
    }
}

} // verus!
