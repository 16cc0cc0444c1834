//! The scheduler: per-process queues of proposals, the chunk history of every
//! event and process, and the rules by which a chunk's receipt is accepted.
use vstd::prelude::*;
use crate::assoc::{AssocMap, append_at, seq_at, with_key};
use crate::text::{bytes_eq, copy_bytes};
use crate::types::{EventId, EventIdModel, HandlerId, HandlerIdModel, ProcessId, ProcessIdModel};

verus! {

#[derive(Debug, Clone, Copy, PartialEq, Eq, Hash, Structural)]
pub enum RuntimeStatus {
    Normal,
    Error,
    End,
}

impl DeepView for RuntimeStatus {
    type V = RuntimeStatus;

    open spec fn deep_view(&self) -> RuntimeStatus {
        *self
    }
}

/// The model of a [`Promise`].
pub struct PromiseModel {
    pub id: u64,
    pub target: EventIdModel,
}

/// The model of a [`Proposal`].
pub struct ProposalModel {
    pub process: ProcessIdModel,
    pub event: Option<EventIdModel>,
    pub input: Seq<u8>,
    pub promise: Option<PromiseModel>,
    pub from: ProcessIdModel,
}

/// The model of a [`Syscall`].
pub enum SyscallModel {
    KVRead { key: Seq<char>, current_value: Seq<char> },
    KVWrite { key: Seq<char>, new_value: Seq<char> },
    SqlExec { sql: Seq<char>, params: Seq<u8> },
    SqlQuery { sql: Seq<char>, params: Seq<u8> },
    Call { proposal: ProposalModel },
    Notify { proposal: ProposalModel },
    Register { process: ProcessIdModel, handler: HandlerIdModel },
}

/// The model of a [`Receipt`].
pub struct ReceiptModel {
    pub proposal: ProposalModel,
    pub in_event_seq: u64,
    pub in_log_seq: u64,
    pub syscalls: Seq<SyscallModel>,
    pub returns: Seq<u8>,
    pub status: RuntimeStatus,
}

/// The model of a [`NextAction`].
pub struct NextActionModel {
    pub event: EventIdModel,
    pub proposal: Option<ProposalModel>,
}

#[derive(Debug, Clone)]
pub struct Receipt {
    pub proposal: Proposal,
    /// Sequence index inside a given event's history
    /// e.g. ^arc/my-app/my-process/e48/c1
    pub in_event_seq: u64,
    /// Sequence index inside the chunk history
    /// e.g. ^arc/my-app/my-process/c48
    pub in_log_seq: u64,
    pub syscalls: Vec<Syscall>,
    pub returns: Vec<u8>,
    pub status: RuntimeStatus,
}

#[derive(Debug, Clone)]
pub enum Syscall {
    KVRead { key: String, current_value: String },
    KVWrite { key: String, new_value: String },
    SqlExec { sql: String, params: Vec<u8> },
    SqlQuery { sql: String, params: Vec<u8> },
    Call { proposal: Proposal },
    Notify { proposal: Proposal },
    Register { process: ProcessId, handler: HandlerId },
}

#[derive(Debug, Clone)]
pub struct Proposal {
    pub process: ProcessId,
    pub event: Option<EventId>,
    pub input: Vec<u8>,
    pub promise: Option<Promise>,
    pub from: ProcessId,
}

#[derive(Debug, Clone)]
pub struct Promise {
    pub id: u64,
    pub target: EventId,
}

#[derive(Debug, Clone)]
pub struct NextAction {
    pub event: EventId,
    pub proposal: Option<Proposal>,
}

impl DeepView for Promise {
    type V = PromiseModel;

    open spec fn deep_view(&self) -> PromiseModel {
        PromiseModel { id: self.id, target: self.target@ }
    }
}

impl View for Promise {
    type V = PromiseModel;

    open spec fn view(&self) -> PromiseModel {
        self.deep_view()
    }
}

impl DeepView for Proposal {
    type V = ProposalModel;

    open spec fn deep_view(&self) -> ProposalModel {
        ProposalModel {
            process: self.process@,
            event: self.event.deep_view(),
            input: self.input@,
            promise: self.promise.deep_view(),
            from: self.from@,
        }
    }
}

impl View for Proposal {
    type V = ProposalModel;

    open spec fn view(&self) -> ProposalModel {
        self.deep_view()
    }
}

impl DeepView for Syscall {
    type V = SyscallModel;

    open spec fn deep_view(&self) -> SyscallModel {
        match self {
            Syscall::KVRead { key, current_value } => SyscallModel::KVRead {
                key: key@,
                current_value: current_value@,
            },
            Syscall::KVWrite { key, new_value } => SyscallModel::KVWrite {
                key: key@,
                new_value: new_value@,
            },
            Syscall::SqlExec { sql, params } => SyscallModel::SqlExec { sql: sql@, params: params@ },
            Syscall::SqlQuery { sql, params } => SyscallModel::SqlQuery { sql: sql@, params: params@ },
            Syscall::Call { proposal } => SyscallModel::Call { proposal: proposal@ },
            Syscall::Notify { proposal } => SyscallModel::Notify { proposal: proposal@ },
            Syscall::Register { process, handler } => SyscallModel::Register {
                process: process@,
                handler: handler@,
            },
        }
    }
}

impl View for Syscall {
    type V = SyscallModel;

    open spec fn view(&self) -> SyscallModel {
        self.deep_view()
    }
}

impl DeepView for Receipt {
    type V = ReceiptModel;

    open spec fn deep_view(&self) -> ReceiptModel {
        ReceiptModel {
            proposal: self.proposal@,
            in_event_seq: self.in_event_seq,
            in_log_seq: self.in_log_seq,
            syscalls: self.syscalls.deep_view(),
            returns: self.returns@,
            status: self.status,
        }
    }
}

impl View for Receipt {
    type V = ReceiptModel;

    open spec fn view(&self) -> ReceiptModel {
        self.deep_view()
    }
}

impl DeepView for NextAction {
    type V = NextActionModel;

    open spec fn deep_view(&self) -> NextActionModel {
        NextActionModel { event: self.event@, proposal: self.proposal.deep_view() }
    }
}

impl View for NextAction {
    type V = NextActionModel;

    open spec fn view(&self) -> NextActionModel {
        self.deep_view()
    }
}

fn copy_event_opt(e: &Option<EventId>) -> (r: Option<EventId>)
    ensures
        r.deep_view() == e.deep_view(),
{
    match e {
        Some(x) => Some(x.duplicate()),
        None => None,
    }
}

fn same_event_opt(a: &Option<EventId>, b: &Option<EventId>) -> (r: bool)
    ensures
        r == (a.deep_view() == b.deep_view()),
{
    match (a, b) {
        (Some(x), Some(y)) => x.same(y),
        (None, None) => true,
        _ => false,
    }
}

impl Promise {
    /// A copy of this promise.
    pub fn duplicate(&self) -> (r: Promise)
        ensures
            r@ == self@,
    {
        Promise { id: self.id, target: self.target.duplicate() }
    }

    /// Whether two promises are equal.
    pub fn same(&self, other: &Promise) -> (r: bool)
        ensures
            r == (self@ == other@),
    {
        self.id == other.id && self.target.same(&other.target)
    }
}

impl Proposal {
    /// A copy of this proposal.
    pub fn duplicate(&self) -> (r: Proposal)
        ensures
            r@ == self@,
    {
        Proposal {
            process: self.process.duplicate(),
            event: copy_event_opt(&self.event),
            input: copy_bytes(&self.input),
            promise: match &self.promise {
                Some(p) => Some(p.duplicate()),
                None => None,
            },
            from: self.from.duplicate(),
        }
    }

    /// Whether two proposals are equal.
    pub fn same(&self, other: &Proposal) -> (r: bool)
        ensures
            r == (self@ == other@),
    {
        let promise_same = match (&self.promise, &other.promise) {
            (Some(x), Some(y)) => x.same(y),
            (None, None) => true,
            _ => false,
        };
        self.process.same(&other.process) && same_event_opt(&self.event, &other.event)
            && bytes_eq(&self.input, &other.input) && promise_same && self.from.same(&other.from)
    }
}

impl Syscall {
    /// A copy of this syscall.
    pub fn duplicate(&self) -> (r: Syscall)
        ensures
            r@ == self@,
    {
        match self {
            Syscall::KVRead { key, current_value } => Syscall::KVRead {
                key: key.clone(),
                current_value: current_value.clone(),
            },
            Syscall::KVWrite { key, new_value } => Syscall::KVWrite {
                key: key.clone(),
                new_value: new_value.clone(),
            },
            Syscall::SqlExec { sql, params } => Syscall::SqlExec {
                sql: sql.clone(),
                params: copy_bytes(params),
            },
            Syscall::SqlQuery { sql, params } => Syscall::SqlQuery {
                sql: sql.clone(),
                params: copy_bytes(params),
            },
            Syscall::Call { proposal } => Syscall::Call { proposal: proposal.duplicate() },
            Syscall::Notify { proposal } => Syscall::Notify { proposal: proposal.duplicate() },
            Syscall::Register { process, handler } => Syscall::Register {
                process: process.duplicate(),
                handler: handler.duplicate(),
            },
        }
    }

    /// Whether this is a `Call`.
    pub fn is_call(&self) -> (r: bool)
        ensures
            r == (self@ is Call),
    {
        match self {
            Syscall::Call { .. } => true,
            _ => false,
        }
    }
}

fn copy_syscalls(v: &Vec<Syscall>) -> (r: Vec<Syscall>)
    ensures
        r.deep_view() == v.deep_view(),
{
    let mut r: Vec<Syscall> = Vec::new();
    let mut i: usize = 0;
    while i < v.len()
        invariant
            i <= v.len(),
            r.deep_view() =~= v.deep_view().take(i as int),
        decreases v.len() - i,
    {
        let ghost prev = r.deep_view();
        let d = v[i].duplicate();
        r.push(d);
        assert(r.deep_view() =~= prev.push(d.deep_view()));
        assert(v.deep_view().take(i + 1) =~= v.deep_view().take(i as int).push(v@[i as int].deep_view()));
        i = i + 1;
    }
    assert(v.deep_view().take(v.len() as int) =~= v.deep_view());
    r
}

impl Receipt {
    /// A copy of this receipt.
    pub fn duplicate(&self) -> (r: Receipt)
        ensures
            r@ == self@,
    {
        Receipt {
            proposal: self.proposal.duplicate(),
            in_event_seq: self.in_event_seq,
            in_log_seq: self.in_log_seq,
            syscalls: copy_syscalls(&self.syscalls),
            returns: copy_bytes(&self.returns),
            status: self.status,
        }
    }
}


/// Why a receipt or a stateless reply was refused.
#[derive(Debug, Clone)]
pub enum SchedulerError {
    NoSchedule(ProcessId),
    NoProposals,
    ProposalMismatch,
    LogMisaligned,
    EventMisaligned,
    ProcessMismatch,
    PreviousNotCall,
    CallNotLast,
    MultipleCalls,
    CounterExhausted(ProcessId),
}

/// The model of a [`SchedulerError`].
pub enum SchedulerErrorModel {
    NoSchedule(ProcessIdModel),
    NoProposals,
    ProposalMismatch,
    LogMisaligned,
    EventMisaligned,
    ProcessMismatch,
    PreviousNotCall,
    CallNotLast,
    MultipleCalls,
    CounterExhausted(ProcessIdModel),
}

impl View for SchedulerError {
    type V = SchedulerErrorModel;

    open spec fn view(&self) -> SchedulerErrorModel {
        match self {
            SchedulerError::NoSchedule(p) => SchedulerErrorModel::NoSchedule(p@),
            SchedulerError::NoProposals => SchedulerErrorModel::NoProposals,
            SchedulerError::ProposalMismatch => SchedulerErrorModel::ProposalMismatch,
            SchedulerError::LogMisaligned => SchedulerErrorModel::LogMisaligned,
            SchedulerError::EventMisaligned => SchedulerErrorModel::EventMisaligned,
            SchedulerError::ProcessMismatch => SchedulerErrorModel::ProcessMismatch,
            SchedulerError::PreviousNotCall => SchedulerErrorModel::PreviousNotCall,
            SchedulerError::CallNotLast => SchedulerErrorModel::CallNotLast,
            SchedulerError::MultipleCalls => SchedulerErrorModel::MultipleCalls,
            SchedulerError::CounterExhausted(p) => SchedulerErrorModel::CounterExhausted(p@),
        }
    }
}

impl SchedulerError {
    /// The human-readable message for this error.
    pub fn message(&self) -> (r: String)
        ensures
            r@ == match self@ {
                SchedulerErrorModel::NoSchedule(p) => "No schedule exists for process "@ + p.display(),
                SchedulerErrorModel::NoProposals => "No proposals exist in schedule"@,
                SchedulerErrorModel::ProposalMismatch => "Proposal does not match first scheduled proposal"@,
                SchedulerErrorModel::LogMisaligned => "Chunk is misaligned with chunk history"@,
                SchedulerErrorModel::EventMisaligned => "Chunk is misaligned with per-event log"@,
                SchedulerErrorModel::ProcessMismatch => "Chunk process is mismatched with previous chunk"@,
                SchedulerErrorModel::PreviousNotCall => "Previous chunk must end with a Call syscall"@,
                SchedulerErrorModel::CallNotLast => "Call syscall must be the last syscall in the list"@,
                SchedulerErrorModel::MultipleCalls => "Only one Call syscall is allowed"@,
                SchedulerErrorModel::CounterExhausted(p) => "Event counter is exhausted for process "@ + p.display(),
            },
    {
        match self {
            SchedulerError::NoSchedule(p) => {
                let mut m = String::from_str("No schedule exists for process ");
                let d = p.to_string();
                m.append(d.as_str());
                m
            },
            SchedulerError::NoProposals => String::from_str("No proposals exist in schedule"),
            SchedulerError::ProposalMismatch => String::from_str("Proposal does not match first scheduled proposal"),
            SchedulerError::LogMisaligned => String::from_str("Chunk is misaligned with chunk history"),
            SchedulerError::EventMisaligned => String::from_str("Chunk is misaligned with per-event log"),
            SchedulerError::ProcessMismatch => String::from_str("Chunk process is mismatched with previous chunk"),
            SchedulerError::PreviousNotCall => String::from_str("Previous chunk must end with a Call syscall"),
            SchedulerError::CallNotLast => String::from_str("Call syscall must be the last syscall in the list"),
            SchedulerError::MultipleCalls => String::from_str("Only one Call syscall is allowed"),
            SchedulerError::CounterExhausted(p) => {
                let mut m = String::from_str("Event counter is exhausted for process ");
                let d = p.to_string();
                m.append(d.as_str());
                m
            },
        }
    }
}

/// The model of an [`InMemoryScheduler`].
pub struct SchedulerModel {
    /// The receipts of each event, in order.
    pub event_chunks: Map<EventIdModel, Seq<ReceiptModel>>,
    /// The receipts of each process, in order.
    pub process_chunks: Map<ProcessIdModel, Seq<ReceiptModel>>,
    /// The proposals waiting on each process, first to run first.
    pub schedule: Map<ProcessIdModel, Seq<ProposalModel>>,
    /// The next event sequence number of each process.
    pub event_counter: Map<ProcessIdModel, u64>,
}

/// The counter of `p`, or 0.
pub open spec fn counter_of(c: Map<ProcessIdModel, u64>, p: ProcessIdModel) -> u64 {
    if c.contains_key(p) {
        c[p]
    } else {
        0
    }
}

/// The event a receipt for `prop` falls under, and the counters once it is
/// chosen: the proposal's own event if it names one; otherwise a fresh event
/// (taking the process's counter and advancing it) for the first chunk, or
/// the most recently started event (counter - 1, at least 0) for later chunks.
pub open spec fn assign_event(s: SchedulerModel, prop: ProposalModel, in_event_seq: u64) -> (Map<ProcessIdModel, u64>, EventIdModel) {
    let p = prop.process;
    match prop.event {
        Some(e) => (s.event_counter, e),
        None => {
            let c = counter_of(s.event_counter, p);
            if in_event_seq == 0 {
                (s.event_counter.insert(p, (c + 1) as u64), p.event(c))
            } else {
                (
                    if s.event_counter.contains_key(p) { s.event_counter } else { s.event_counter.insert(p, 0) },
                    p.event(if c == 0 { 0 } else { (c - 1) as u64 }),
                )
            }
        },
    }
}

/// The state once the event is chosen and the schedule, event history and
/// process history involved have an entry (the first step of accepting a
/// receipt).
pub open spec fn prepared(s: SchedulerModel, prop: ProposalModel, rec: ReceiptModel) -> SchedulerModel {
    let ce = assign_event(s, prop, rec.in_event_seq);
    SchedulerModel {
        event_chunks: with_key(s.event_chunks, ce.1),
        process_chunks: with_key(s.process_chunks, prop.process),
        schedule: with_key(s.schedule, prop.process),
        event_counter: ce.0,
    }
}

/// Some `Call` is not the last syscall.
pub open spec fn call_not_last(sc: Seq<SyscallModel>) -> bool {
    exists|i: int| 0 <= i < sc.len() - 1 && #[trigger] sc[i] is Call
}

/// The syscalls end with a `Call`.
pub open spec fn ends_with_call(sc: Seq<SyscallModel>) -> bool {
    sc.len() > 0 && sc.last() is Call
}

/// The proposals of the `Call` syscalls, in order.
pub open spec fn calls_in(sc: Seq<SyscallModel>) -> Seq<ProposalModel>
    decreases sc.len(),
{
    if sc.len() == 0 {
        Seq::empty()
    } else {
        let rest = calls_in(sc.drop_last());
        match sc.last() {
            SyscallModel::Call { proposal } => rest.push(proposal),
            _ => rest,
        }
    }
}

/// The proposals of the `Notify` syscalls, in order.
pub open spec fn notifies_in(sc: Seq<SyscallModel>) -> Seq<ProposalModel>
    decreases sc.len(),
{
    if sc.len() == 0 {
        Seq::empty()
    } else {
        let rest = notifies_in(sc.drop_last());
        match sc.last() {
            SyscallModel::Notify { proposal } => rest.push(proposal),
            _ => rest,
        }
    }
}

/// Appends each proposal, in order, to the schedule of its process.
pub open spec fn enqueue_all(m: Map<ProcessIdModel, Seq<ProposalModel>>, ps: Seq<ProposalModel>) -> Map<ProcessIdModel, Seq<ProposalModel>>
    decreases ps.len(),
{
    if ps.len() == 0 {
        m
    } else {
        append_at(enqueue_all(m, ps.drop_last()), ps.last().process, ps.last())
    }
}

/// Where a promise's result goes: its target event and the process of that
/// event's first receipt, if the event has one.
pub open spec fn resolve_source(ec: Map<EventIdModel, Seq<ReceiptModel>>, promise: Option<PromiseModel>) -> Option<(EventIdModel, ProcessIdModel)> {
    match promise {
        Some(pr) => if ec.contains_key(pr.target) && ec[pr.target].len() > 0 {
            Some((pr.target, ec[pr.target][0].proposal.process))
        } else {
            None
        },
        None => None,
    }
}

/// The proposal that hands a result back to the event that made a call.
pub open spec fn resolution(src: (EventIdModel, ProcessIdModel), reply: Seq<u8>, from: ProcessIdModel) -> ProposalModel {
    ProposalModel { process: src.1, event: Some(src.0), input: reply, promise: None, from }
}

/// The first rule about positions that a receipt breaks, checked against the
/// prepared state `q`: the proposal must be first in its schedule; the receipt
/// must extend both the process and the event history; a later chunk must come
/// from the same process as the one before it, which must end in a `Call`
/// unless it belongs to the same proposal.
pub open spec fn position_error(q: SchedulerModel, ev: EventIdModel, prop: ProposalModel, rec: ReceiptModel) -> Option<SchedulerErrorModel> {
    let sched = seq_at(q.schedule, prop.process);
    let ech = seq_at(q.event_chunks, ev);
    let pch = seq_at(q.process_chunks, prop.process);
    if sched.len() == 0 {
        Some(SchedulerErrorModel::NoProposals)
    } else if sched[0] != prop {
        Some(SchedulerErrorModel::ProposalMismatch)
    } else if rec.in_log_seq != pch.len() {
        Some(SchedulerErrorModel::LogMisaligned)
    } else if rec.in_event_seq != ech.len() {
        Some(SchedulerErrorModel::EventMisaligned)
    } else if rec.in_event_seq != 0 && ech[rec.in_event_seq - 1].proposal.process != rec.proposal.process {
        Some(SchedulerErrorModel::ProcessMismatch)
    } else if rec.in_event_seq != 0 && ech[rec.in_event_seq - 1].proposal != prop
        && !ends_with_call(ech[rec.in_event_seq - 1].syscalls) {
        Some(SchedulerErrorModel::PreviousNotCall)
    } else {
        None
    }
}

/// Creating empty entries changes no rule about positions.
pub proof fn lemma_position_error_prepared(s: SchedulerModel, prop: ProposalModel, rec: ReceiptModel, ev: EventIdModel)
    ensures
        position_error(prepared(s, prop, rec), ev, prop, rec) == position_error(s, ev, prop, rec),
{
    let q = prepared(s, prop, rec);
    assert(seq_at(q.schedule, prop.process) == seq_at(s.schedule, prop.process));
    assert(seq_at(q.event_chunks, ev) == seq_at(s.event_chunks, ev));
    assert(seq_at(q.process_chunks, prop.process) == seq_at(s.process_chunks, prop.process));
}

/// The first rule about syscalls that a receipt breaks: a `Call` may only be
/// the last syscall, and only one is allowed.
pub open spec fn syscall_error(sc: Seq<SyscallModel>) -> Option<SchedulerErrorModel> {
    if call_not_last(sc) {
        Some(SchedulerErrorModel::CallNotLast)
    } else if calls_in(sc).len() > 1 {
        Some(SchedulerErrorModel::MultipleCalls)
    } else {
        None
    }
}

/// The first rule a receipt breaks, if any.
pub open spec fn satisfy_error(s: SchedulerModel, prop: ProposalModel, rec: ReceiptModel) -> Option<SchedulerErrorModel> {
    match position_error(s, assign_event(s, prop, rec.in_event_seq).1, prop, rec) {
        Some(e) => Some(e),
        None => syscall_error(rec.syscalls),
    }
}

/// The state and the outcome of an accepted receipt, from the prepared state
/// `q` and the chosen event `ev`: the proposal leaves its schedule if it
/// completes; the receipt is appended to the event's and the process's history;
/// every notified proposal joins its target's schedule; and if the proposal
/// completes and its event was started by a call (the promise of the event's
/// first receipt), this receipt's return value goes back to the calling event
/// as a new proposal.
pub open spec fn commit_receipt(q: SchedulerModel, ev: EventIdModel, prop: ProposalModel, rec: ReceiptModel, completes: bool) -> (SchedulerModel, (NextActionModel, Seq<ProposalModel>)) {
    let p = prop.process;
    let ech = seq_at(q.event_chunks, ev);
    let root = if rec.in_event_seq == 0 { rec } else { ech[0] };
    let sched1 = if completes { q.schedule.insert(p, seq_at(q.schedule, p).drop_first()) } else { q.schedule };
    let ec1 = q.event_chunks.insert(ev, ech.push(rec));
    let pc1 = q.process_chunks.insert(p, seq_at(q.process_chunks, p).push(rec));
    let source = resolve_source(ec1, root.proposal.promise);
    let notes = notifies_in(rec.syscalls);
    let sched2 = enqueue_all(sched1, notes);
    let calls = calls_in(rec.syscalls);
    let action = NextActionModel {
        event: ev,
        proposal: if calls.len() > 0 { Some(calls.last()) } else { None },
    };
    if completes && source is Some {
        let rp = resolution(source->0, rec.returns, p);
        (
            SchedulerModel { event_chunks: ec1, process_chunks: pc1, schedule: append_at(sched2, rp.process, rp), event_counter: q.event_counter },
            (action, notes.push(rp)),
        )
    } else {
        (
            SchedulerModel { event_chunks: ec1, process_chunks: pc1, schedule: sched2, event_counter: q.event_counter },
            (action, notes),
        )
    }
}

/// A receipt that would start a new event of a process whose event counter
/// has no number left.
pub open spec fn counter_exhausted(s: SchedulerModel, prop: ProposalModel, rec: ReceiptModel) -> bool {
    prop.event is None && rec.in_event_seq == 0 && counter_of(s.event_counter, prop.process) == u64::MAX
}

/// The first reason a receipt is refused when the counter is checked too:
/// an exhausted counter, then the rules of [`satisfy_error`].
pub open spec fn try_satisfy_error(s: SchedulerModel, prop: ProposalModel, rec: ReceiptModel) -> Option<SchedulerErrorModel> {
    if counter_exhausted(s, prop, rec) {
        Some(SchedulerErrorModel::CounterExhausted(prop.process))
    } else {
        satisfy_error(s, prop, rec)
    }
}

/// The state and the outcome of an accepted receipt.
pub open spec fn satisfy_commit(s: SchedulerModel, prop: ProposalModel, rec: ReceiptModel, completes: bool) -> (SchedulerModel, (NextActionModel, Seq<ProposalModel>)) {
    commit_receipt(prepared(s, prop, rec), assign_event(s, prop, rec.in_event_seq).1, prop, rec, completes)
}

/// The first rule a stateless reply breaks, if any.
pub open spec fn stateless_error(s: SchedulerModel, prop: ProposalModel) -> Option<SchedulerErrorModel> {
    let p = prop.process;
    if !s.schedule.contains_key(p) {
        Some(SchedulerErrorModel::NoSchedule(p))
    } else if s.schedule[p].len() == 0 {
        Some(SchedulerErrorModel::NoProposals)
    } else if s.schedule[p][0] != prop {
        Some(SchedulerErrorModel::ProposalMismatch)
    } else {
        None
    }
}

/// The state and the outcome of an accepted stateless reply: the proposal leaves
/// its schedule and, if it carries a promise whose event has a receipt, the
/// reply goes back to that event as a new proposal.
pub open spec fn stateless_commit(s: SchedulerModel, prop: ProposalModel, reply: Seq<u8>) -> (SchedulerModel, (NextActionModel, Seq<ProposalModel>)) {
    let p = prop.process;
    let sched1 = s.schedule.insert(p, s.schedule[p].drop_first());
    let source = resolve_source(s.event_chunks, prop.promise);
    let action = NextActionModel { event: p.event(0), proposal: None };
    if source is Some {
        let rp = resolution(source->0, reply, p);
        (
            SchedulerModel { schedule: append_at(sched1, rp.process, rp), ..s },
            (action, seq![rp]),
        )
    } else {
        (SchedulerModel { schedule: sched1, ..s }, (action, Seq::empty()))
    }
}

/// A scheduler: the proposals waiting on each process, the receipt histories
/// of events and processes, and the event counters, as [`SchedulerModel`]
/// describes them and the rules of [`satisfy_error`] govern them.
pub trait Scheduler {
    spec fn well_formed(&self) -> bool;

    /// The scheduler's state.
    spec fn state(&self) -> SchedulerModel;

    /// Appends `proposal` to its process's schedule; returns its position.
    fn add_proposal(&mut self, proposal: Proposal) -> (r: u64)
        requires
            old(self).well_formed(),
        ensures
            final(self).well_formed(),
            final(self).state() == (SchedulerModel {
                schedule: append_at(old(self).state().schedule, proposal@.process, proposal@),
                ..old(self).state()
            }),
            r == seq_at(old(self).state().schedule, proposal@.process).len(),
    ;

    /// The first proposal waiting on `process`, if any.
    fn get_next_proposal(&mut self, process: &ProcessId) -> (r: Option<&Proposal>)
        requires
            old(self).well_formed(),
        ensures
            final(self).well_formed(),
            final(self).state() == old(self).state(),
            match r {
                Some(x) => seq_at(old(self).state().schedule, process@).len() > 0
                    && x@ == seq_at(old(self).state().schedule, process@)[0],
                None => seq_at(old(self).state().schedule, process@).len() == 0,
            },
    ;

    /// The identifier of the next event of `process`.
    fn get_next_event_id(&mut self, process: &ProcessId) -> (r: EventId)
        requires
            old(self).well_formed(),
        ensures
            final(self).well_formed(),
            final(self).state() == (SchedulerModel {
                event_counter: if old(self).state().event_counter.contains_key(process@) {
                    old(self).state().event_counter
                } else {
                    old(self).state().event_counter.insert(process@, 0)
                },
                ..old(self).state()
            }),
            r@ == process@.event(counter_of(old(self).state().event_counter, process@)),
    ;

    /// The number of receipts in the history of `process`.
    fn get_log_seq(&self, process: &ProcessId) -> (r: u64)
        requires
            self.well_formed(),
        ensures
            r == seq_at(self.state().process_chunks, process@).len(),
    ;

    /// Applies a receipt for `proposal`: refused as [`satisfy_error`] says
    /// (changing nothing), else recorded as [`satisfy_commit`] says.
    fn satisfy_proposal(&mut self, proposal: &Proposal, receipt: Receipt, completes_proposal: bool) -> (r: Result<(NextAction, Vec<Proposal>), SchedulerError>)
        requires
            old(self).well_formed(),
            proposal@.event is None && receipt@.in_event_seq == 0
                ==> counter_of(old(self).state().event_counter, proposal@.process) < u64::MAX,
        ensures
            final(self).well_formed(),
            match satisfy_error(old(self).state(), proposal@, receipt@) {
                Some(e) => final(self).state() == old(self).state() && (r matches Err(x) && x@ == e),
                None => {
                    let c = satisfy_commit(old(self).state(), proposal@, receipt@, completes_proposal);
                    &&& final(self).state() == c.0
                    &&& r matches Ok(x) && x.0@ == c.1.0 && x.1.deep_view() == c.1.1
                },
            },
    ;

    /// The receipts of `event`, if it has a history.
    fn get_chunks_from_event(&self, event: &EventId) -> (r: Option<&Vec<Receipt>>)
        requires
            self.well_formed(),
        ensures
            match r {
                Some(v) => self.state().event_chunks.contains_key(event@)
                    && v.deep_view() == self.state().event_chunks[event@],
                None => !self.state().event_chunks.contains_key(event@),
            },
    ;

    /// The receipt of `event` at position `chunk_seq`, if any.
    fn get_chunk_from_event(&self, event: &EventId, chunk_seq: u64) -> (r: Option<&Receipt>)
        requires
            self.well_formed(),
        ensures
            match r {
                Some(x) => self.state().event_chunks.contains_key(event@)
                    && chunk_seq < self.state().event_chunks[event@].len()
                    && x@ == self.state().event_chunks[event@][chunk_seq as int],
                None => !self.state().event_chunks.contains_key(event@)
                    || chunk_seq >= self.state().event_chunks[event@].len(),
            },
    ;

    /// Answers `proposal` without running it: refused as [`stateless_error`]
    /// says (changing nothing), else as [`stateless_commit`] says.
    fn stateless_satisfy(&mut self, proposal: &Proposal, reply: Vec<u8>) -> (r: Result<(NextAction, Vec<Proposal>), SchedulerError>)
        requires
            old(self).well_formed(),
        ensures
            final(self).well_formed(),
            match stateless_error(old(self).state(), proposal@) {
                Some(e) => final(self).state() == old(self).state() && (r matches Err(x) && x@ == e),
                None => {
                    let c = stateless_commit(old(self).state(), proposal@, reply@);
                    &&& final(self).state() == c.0
                    &&& r matches Ok(x) && x.0@ == c.1.0 && x.1.deep_view() == c.1.1
                },
            },
    ;
}

pub struct InMemoryScheduler {
    event_chunks: AssocMap<EventId, Vec<Receipt>>,
    process_chunks: AssocMap<ProcessId, Vec<Receipt>>,
    schedule: AssocMap<ProcessId, Vec<Proposal>>,
    event_counter: AssocMap<ProcessId, u64>,
}

impl View for InMemoryScheduler {
    type V = SchedulerModel;

    closed spec fn view(&self) -> SchedulerModel {
        SchedulerModel {
            event_chunks: self.event_chunks.model(),
            process_chunks: self.process_chunks.model(),
            schedule: self.schedule.model(),
            event_counter: self.event_counter.model(),
        }
    }
}


impl InMemoryScheduler {
    /// The four maps are well formed.
    pub closed spec fn wf(&self) -> bool {
        &&& self.event_chunks.wf()
        &&& self.process_chunks.wf()
        &&& self.schedule.wf()
        &&& self.event_counter.wf()
    }

    pub fn new() -> (r: InMemoryScheduler)
        ensures
            r.wf(),
            r@.event_chunks == Map::<EventIdModel, Seq<ReceiptModel>>::empty(),
            r@.process_chunks == Map::<ProcessIdModel, Seq<ReceiptModel>>::empty(),
            r@.schedule == Map::<ProcessIdModel, Seq<ProposalModel>>::empty(),
            r@.event_counter == Map::<ProcessIdModel, u64>::empty(),
    {
        InMemoryScheduler {
            event_chunks: AssocMap::new(),
            process_chunks: AssocMap::new(),
            schedule: AssocMap::new(),
            event_counter: AssocMap::new(),
        }
    }

    /// Appends `proposal` to the schedule of its process; returns its position there.
    pub fn add_proposal(&mut self, proposal: Proposal) -> (r: u64)
        requires
            old(self).wf(),
        ensures
            final(self).wf(),
            final(self)@ == (SchedulerModel {
                schedule: append_at(old(self)@.schedule, proposal@.process, proposal@),
                ..old(self)@
            }),
            r == seq_at(old(self)@.schedule, proposal@.process).len(),
    {
        let p = proposal.process.duplicate();
        self.schedule.push_to(&p, proposal);
        let i = self.schedule.ensure_key(&p);
        let n = self.schedule.value_at(i).len();
        proof {
            assert(self.schedule.model()[p@].len() == n);
        }
        (n - 1) as u64
    }

    /// The first proposal waiting on `process`, if any.
    pub fn get_next_proposal(&mut self, process: &ProcessId) -> (r: Option<&Proposal>)
        requires
            old(self).wf(),
        ensures
            final(self).wf(),
            final(self)@ == old(self)@,
            match r {
                Some(x) => seq_at(old(self)@.schedule, process@).len() > 0
                    && x@ == seq_at(old(self)@.schedule, process@)[0],
                None => seq_at(old(self)@.schedule, process@).len() == 0,
            },
    {
        match self.schedule.get(process) {
            Some(q) => {
                if q.len() > 0 {
                    Some(&q[0])
                } else {
                    None
                }
            },
            None => None,
        }
    }

    /// The identifier of the next event of `process` (its counter is created,
    /// at 0, if absent; it is not advanced).
    pub fn get_next_event_id(&mut self, process: &ProcessId) -> (r: EventId)
        requires
            old(self).wf(),
        ensures
            final(self).wf(),
            final(self)@ == (SchedulerModel {
                event_counter: if old(self)@.event_counter.contains_key(process@) {
                    old(self)@.event_counter
                } else {
                    old(self)@.event_counter.insert(process@, 0)
                },
                ..old(self)@
            }),
            r@ == process@.event(counter_of(old(self)@.event_counter, process@)),
    {
        let i = self.event_counter.entry(process, 0);
        let c = *self.event_counter.value_at(i);
        process.event(c)
    }

    /// The number of receipts in the history of `process`.
    pub fn get_log_seq(&self, process: &ProcessId) -> (r: u64)
        requires
            self.wf(),
        ensures
            r == seq_at(self@.process_chunks, process@).len(),
    {
        match self.process_chunks.get(process) {
            Some(v) => v.len() as u64,
            None => 0,
        }
    }

    /// The receipts of `event`, if it has a history.
    pub fn get_chunks_from_event(&self, event: &EventId) -> (r: Option<&Vec<Receipt>>)
        requires
            self.wf(),
        ensures
            match r {
                Some(v) => self@.event_chunks.contains_key(event@)
                    && v.deep_view() == self@.event_chunks[event@],
                None => !self@.event_chunks.contains_key(event@),
            },
    {
        self.event_chunks.get(event)
    }

    /// The receipt of `event` at position `chunk_seq`, if any.
    pub fn get_chunk_from_event(&self, event: &EventId, chunk_seq: u64) -> (r: Option<&Receipt>)
        requires
            self.wf(),
        ensures
            match r {
                Some(x) => self@.event_chunks.contains_key(event@)
                    && chunk_seq < self@.event_chunks[event@].len()
                    && x@ == self@.event_chunks[event@][chunk_seq as int],
                None => !self@.event_chunks.contains_key(event@)
                    || chunk_seq >= self@.event_chunks[event@].len(),
            },
    {
        match self.event_chunks.get(event) {
            Some(v) => {
                if chunk_seq < v.len() as u64 {
                    Some(&v[chunk_seq as usize])
                } else {
                    None
                }
            },
            None => None,
        }
    }

    /// The proposals waiting on `process`, if it has a schedule.
    pub fn schedule_of(&self, process: &ProcessId) -> (r: Option<&Vec<Proposal>>)
        requires
            self.wf(),
        ensures
            match r {
                Some(v) => self@.schedule.contains_key(process@)
                    && v.deep_view() == self@.schedule[process@],
                None => !self@.schedule.contains_key(process@),
            },
    {
        self.schedule.get(process)
    }

    /// The receipts of `process`, if it has a history.
    pub fn process_chunks_of(&self, process: &ProcessId) -> (r: Option<&Vec<Receipt>>)
        requires
            self.wf(),
        ensures
            match r {
                Some(v) => self@.process_chunks.contains_key(process@)
                    && v.deep_view() == self@.process_chunks[process@],
                None => !self@.process_chunks.contains_key(process@),
            },
    {
        self.process_chunks.get(process)
    }

    /// The event counter of `process`, if it has one.
    pub fn event_counter_of(&self, process: &ProcessId) -> (r: Option<u64>)
        requires
            self.wf(),
        ensures
            match r {
                Some(c) => self@.event_counter.contains_key(process@)
                    && c == self@.event_counter[process@],
                None => !self@.event_counter.contains_key(process@),
            },
    {
        match self.event_counter.get(process) {
            Some(c) => Some(*c),
            None => None,
        }
    }

    /// The event a promise's result goes to, and the process of that event's
    /// first receipt.
    fn find_source(&self, promise: &Option<Promise>) -> (r: Option<(EventId, ProcessId)>)
        requires
            self.wf(),
        ensures
            match resolve_source(self@.event_chunks, promise.deep_view()) {
                Some(x) => r matches Some(y) && y.0@ == x.0 && y.1@ == x.1,
                None => r is None,
            },
    {
        match promise {
            Some(pr) => match self.event_chunks.get(&pr.target) {
                Some(v) => {
                    if v.len() > 0 {
                        Some((pr.target.duplicate(), v[0].proposal.process.duplicate()))
                    } else {
                        None
                    }
                },
                None => None,
            },
            None => None,
        }
    }

    /// Accepts the reply of a process whose state the runtime does not track:
    /// the proposal must be first in its schedule; it is removed, and the reply
    /// goes back to the calling event if the proposal carries a promise.
    pub fn stateless_satisfy(&mut self, proposal: &Proposal, reply: Vec<u8>) -> (r: Result<(NextAction, Vec<Proposal>), SchedulerError>)
        requires
            old(self).wf(),
        ensures
            final(self).wf(),
            match stateless_error(old(self)@, proposal@) {
                Some(e) => final(self)@ == old(self)@ && (r matches Err(x) && x@ == e),
                None => {
                    let c = stateless_commit(old(self)@, proposal@, reply@);
                    &&& final(self)@ == c.0
                    &&& r matches Ok(x) && x.0@ == c.1.0 && x.1.deep_view() == c.1.1
                },
            },
    {
        let process = &proposal.process;
        match self.schedule.get(process) {
            None => {
                return Err(SchedulerError::NoSchedule(process.duplicate()));
            },
            Some(q) => {
                if q.len() == 0 {
                    return Err(SchedulerError::NoProposals);
                }
                if !q[0].same(proposal) {
                    return Err(SchedulerError::ProposalMismatch);
                }
            },
        }
        let ghost s0 = self@;
        let _ = self.schedule.pop_front_at(process);
        let source = self.find_source(&proposal.promise);
        let mut new_proposals: Vec<Proposal> = Vec::new();
        match source {
            Some((se, sp)) => {
                let pp = Proposal {
                    process: sp,
                    event: Some(se),
                    input: reply,
                    promise: None,
                    from: process.duplicate(),
                };
                self.add_proposal(pp.duplicate());
                new_proposals.push(pp);
                assert(new_proposals.deep_view() =~= seq![pp@]);
            },
            None => {
                assert(new_proposals.deep_view() =~= Seq::<ProposalModel>::empty());
            },
        }
        let action = NextAction { event: process.event(0), proposal: None };
        Ok((action, new_proposals))
    }

    /// The event a receipt for `proposal` falls under (see [`assign_event`]),
    /// chosen without touching the state.
    fn choose_event(&self, proposal: &Proposal, in_event_seq: u64) -> (e: EventId)
        requires
            self.wf(),
        ensures
            e@ == assign_event(self@, proposal@, in_event_seq).1,
    {
        match &proposal.event {
            Some(e) => e.duplicate(),
            None => {
                let c = match self.event_counter.get(&proposal.process) {
                    Some(c) => *c,
                    None => 0,
                };
                if in_event_seq == 0 {
                    proposal.process.event(c)
                } else {
                    proposal.process.event(if c == 0 { 0 } else { c - 1 })
                }
            },
        }
    }

    /// Chooses the event of a receipt and creates the entries it needs.
    fn prepare(&mut self, proposal: &Proposal, in_event_seq: u64, Ghost(rec): Ghost<ReceiptModel>) -> (e: EventId)
        requires
            old(self).wf(),
            rec.in_event_seq == in_event_seq,
            proposal@.event is None && in_event_seq == 0
                ==> counter_of(old(self)@.event_counter, proposal@.process) < u64::MAX,
        ensures
            final(self).wf(),
            final(self)@ == prepared(old(self)@, proposal@, rec),
            e@ == assign_event(old(self)@, proposal@, in_event_seq).1,
    {
        let process = &proposal.process;
        let event = match &proposal.event {
            Some(e) => e.duplicate(),
            None => {
                let i = self.event_counter.entry(process, 0);
                let c = *self.event_counter.value_at(i);
                if in_event_seq == 0 {
                    self.event_counter.insert(process.duplicate(), c + 1);
                    process.event(c)
                } else {
                    process.event(if c == 0 { 0 } else { c - 1 })
                }
            },
        };
        let ghost s0 = old(self)@;
        assert(self.event_counter.model() == assign_event(s0, proposal@, in_event_seq).0);
        assert(event@ == assign_event(s0, proposal@, in_event_seq).1);
        self.schedule.ensure_key(process);
        self.event_chunks.ensure_key(&event);
        self.process_chunks.ensure_key(process);
        assert(self@.schedule == prepared(s0, proposal@, rec).schedule);
        assert(self@.event_chunks == prepared(s0, proposal@, rec).event_chunks);
        assert(self@.process_chunks == prepared(s0, proposal@, rec).process_chunks);
        assert(self@.event_counter == prepared(s0, proposal@, rec).event_counter);
        event
    }

    /// The first rule about positions that `receipt` breaks, if any.
    fn check_position(&self, event: &EventId, proposal: &Proposal, receipt: &Receipt) -> (r: Option<SchedulerError>)
        requires
            self.wf(),
        ensures
            match position_error(self@, event@, proposal@, receipt@) {
                Some(e) => r matches Some(x) && x@ == e,
                None => r is None,
            },
    {
        let process = &proposal.process;
        let in_event_seq = receipt.in_event_seq;
        match self.schedule.get(process) {
            Some(sched) => {
                if sched.len() == 0 {
                    return Some(SchedulerError::NoProposals);
                }
                if !sched[0].same(proposal) {
                    return Some(SchedulerError::ProposalMismatch);
                }
            },
            None => {
                return Some(SchedulerError::NoProposals);
            },
        }
        let pch_len = match self.process_chunks.get(process) {
            Some(v) => v.len(),
            None => 0,
        };
        if receipt.in_log_seq != pch_len as u64 {
            return Some(SchedulerError::LogMisaligned);
        }
        let ech_len = match self.event_chunks.get(event) {
            Some(v) => v.len(),
            None => 0,
        };
        if in_event_seq != ech_len as u64 {
            return Some(SchedulerError::EventMisaligned);
        }
        if in_event_seq != 0 {
            match self.event_chunks.get(event) {
                Some(ech) => {
                    let prev = &ech[(in_event_seq - 1) as usize];
                    if !prev.proposal.process.same(&receipt.proposal.process) {
                        return Some(SchedulerError::ProcessMismatch);
                    }
                    if !prev.proposal.same(proposal) {
                        let n = prev.syscalls.len();
                        let ends_with_call = n > 0 && prev.syscalls[n - 1].is_call();
                        if !ends_with_call {
                            return Some(SchedulerError::PreviousNotCall);
                        }
                    }
                },
                None => {},
            }
        }
        None
    }

    /// The `Call` and `Notify` proposals of a receipt, or the rule its syscalls break.
    fn scan_syscalls(syscalls: &Vec<Syscall>) -> (r: Result<(Vec<Proposal>, Vec<Proposal>), SchedulerError>)
        ensures
            match syscall_error(syscalls.deep_view()) {
                Some(e) => r matches Err(x) && x@ == e,
                None => r matches Ok(p) && p.0.deep_view() == calls_in(syscalls.deep_view())
                    && p.1.deep_view() == notifies_in(syscalls.deep_view()),
            },
    {
        let ghost sc = syscalls.deep_view();
        let mut calls: Vec<Proposal> = Vec::new();
        let mut notifs: Vec<Proposal> = Vec::new();
        let n = syscalls.len();
        let mut i: usize = 0;
        while i < n
            invariant
                n == syscalls@.len(),
                sc == syscalls.deep_view(),
                i <= n,
                calls.deep_view() == calls_in(sc.take(i as int)),
                notifs.deep_view() == notifies_in(sc.take(i as int)),
                forall|j: int| 0 <= j < i && j < n - 1 ==> !(#[trigger] sc[j] is Call),
            decreases n - i,
        {
            let ghost c0 = calls.deep_view();
            let ghost n0 = notifs.deep_view();
            assert(sc.take(i + 1).drop_last() =~= sc.take(i as int));
            assert(sc.take(i + 1).last() == sc[i as int]);
            match &syscalls[i] {
                Syscall::Call { proposal } => {
                    let d = proposal.duplicate();
                    calls.push(d);
                    assert(calls.deep_view() =~= c0.push(d@));
                },
                Syscall::Notify { proposal } => {
                    let d = proposal.duplicate();
                    notifs.push(d);
                    assert(notifs.deep_view() =~= n0.push(d@));
                },
                _ => {},
            }
            if syscalls[i].is_call() && i != n - 1 {
                assert(sc[i as int] is Call);
                return Err(SchedulerError::CallNotLast);
            }
            i = i + 1;
        }
        assert(sc.take(n as int) =~= sc);
        if calls.len() > 1 {
            return Err(SchedulerError::MultipleCalls);
        }
        Ok((calls, notifs))
    }

    /// Records an accepted receipt (see [`commit_receipt`]).
    fn commit(&mut self, event: EventId, proposal: &Proposal, receipt: Receipt, completes_proposal: bool, calls: &Vec<Proposal>, notifs: &Vec<Proposal>) -> (r: (NextAction, Vec<Proposal>))
        requires
            old(self).wf(),
            position_error(old(self)@, event@, proposal@, receipt@) is None,
            old(self)@.schedule.contains_key(proposal@.process),
            old(self)@.event_chunks.contains_key(event@),
            old(self)@.process_chunks.contains_key(proposal@.process),
            calls.deep_view() == calls_in(receipt@.syscalls),
            notifs.deep_view() == notifies_in(receipt@.syscalls),
        ensures
            final(self).wf(),
            final(self)@ == commit_receipt(old(self)@, event@, proposal@, receipt@, completes_proposal).0,
            r.0@ == commit_receipt(old(self)@, event@, proposal@, receipt@, completes_proposal).1.0,
            r.1.deep_view() == commit_receipt(old(self)@, event@, proposal@, receipt@, completes_proposal).1.1,
    {
        let process = &proposal.process;
        let root_promise: Option<Promise> = if receipt.in_event_seq == 0 {
            match &receipt.proposal.promise {
                Some(p) => Some(p.duplicate()),
                None => None,
            }
        } else {
            match self.event_chunks.get(&event) {
                Some(ech) => match &ech[0].proposal.promise {
                    Some(p) => Some(p.duplicate()),
                    None => None,
                },
                None => None,
            }
        };
        let reply = copy_bytes(&receipt.returns);
        if completes_proposal {
            let _ = self.schedule.pop_front_at(process);
        }
        let ghost sched1 = self.schedule.model();
        self.event_chunks.push_to(&event, receipt.duplicate());
        self.process_chunks.push_to(process, receipt);
        let ghost mid = self@;

        let source = self.find_source(&root_promise);

        let mut new_proposals: Vec<Proposal> = Vec::new();
        let ghost notes = notifs.deep_view();
        let mut j: usize = 0;
        while j < notifs.len()
            invariant
                self.wf(),
                j <= notifs@.len(),
                notes == notifs.deep_view(),
                self.schedule.model() == enqueue_all(sched1, notes.take(j as int)),
                self.event_chunks.model() == mid.event_chunks,
                self.process_chunks.model() == mid.process_chunks,
                self.event_counter.model() == mid.event_counter,
                new_proposals.deep_view() == notes.take(j as int),
            decreases notifs@.len() - j,
        {
            let ghost np0 = new_proposals.deep_view();
            let nt = notifs[j].duplicate();
            let target = nt.process.duplicate();
            self.schedule.push_to(&target, nt.duplicate());
            new_proposals.push(nt);
            assert(notes.take(j + 1).drop_last() =~= notes.take(j as int));
            assert(new_proposals.deep_view() =~= np0.push(nt@));
            j = j + 1;
        }
        assert(notes.take(notifs@.len() as int) =~= notes);

        if completes_proposal {
            match source {
                Some((se, sp)) => {
                    let ghost np0 = new_proposals.deep_view();
                    let pp = Proposal {
                        process: sp,
                        event: Some(se),
                        input: reply,
                        promise: None,
                        from: process.duplicate(),
                    };
                    self.add_proposal(pp.duplicate());
                    new_proposals.push(pp);
                    assert(new_proposals.deep_view() =~= np0.push(pp@));
                },
                None => {},
            }
        }

        let next = if calls.len() > 0 {
            Some(calls[calls.len() - 1].duplicate())
        } else {
            None
        };
        let action = NextAction { event, proposal: next };
        (action, new_proposals)
    }

    /// Checks a receipt for the first proposal of its process and, if it obeys
    /// the rules of [`satisfy_error`], records it as [`satisfy_commit`] says.
    /// A refused receipt changes nothing: every rule is checked before the
    /// state is touched.
    pub fn satisfy_proposal(&mut self, proposal: &Proposal, receipt: Receipt, completes_proposal: bool) -> (r: Result<(NextAction, Vec<Proposal>), SchedulerError>)
        requires
            old(self).wf(),
            proposal@.event is None && receipt@.in_event_seq == 0
                ==> counter_of(old(self)@.event_counter, proposal@.process) < u64::MAX,
        ensures
            final(self).wf(),
            match satisfy_error(old(self)@, proposal@, receipt@) {
                Some(e) => final(self)@ == old(self)@ && (r matches Err(x) && x@ == e),
                None => {
                    let c = satisfy_commit(old(self)@, proposal@, receipt@, completes_proposal);
                    &&& final(self)@ == c.0
                    &&& r matches Ok(x) && x.0@ == c.1.0 && x.1.deep_view() == c.1.1
                },
            },
    {
        let chosen = self.choose_event(proposal, receipt.in_event_seq);
        if let Some(e) = self.check_position(&chosen, proposal, &receipt) {
            return Err(e);
        }
        let (calls, notifs) = match Self::scan_syscalls(&receipt.syscalls) {
            Ok(p) => p,
            Err(e) => {
                return Err(e);
            },
        };
        let ghost s0 = self@;
        let event = self.prepare(proposal, receipt.in_event_seq, Ghost(receipt@));
        proof {
            lemma_position_error_prepared(s0, proposal@, receipt@, event@);
        }
        Ok(self.commit(event, proposal, receipt, completes_proposal, &calls, &notifs))
    }

    /// Applies a receipt as [`InMemoryScheduler::satisfy_proposal`] does,
    /// first refusing (and changing nothing) one that would start a new event
    /// of a process whose event counter is exhausted.
    pub fn try_satisfy_proposal(&mut self, proposal: &Proposal, receipt: Receipt, completes_proposal: bool) -> (r: Result<(NextAction, Vec<Proposal>), SchedulerError>)
        requires
            old(self).wf(),
        ensures
            final(self).wf(),
            match try_satisfy_error(old(self)@, proposal@, receipt@) {
                Some(e) => final(self)@ == old(self)@ && (r matches Err(x) && x@ == e),
                None => {
                    let c = satisfy_commit(old(self)@, proposal@, receipt@, completes_proposal);
                    &&& final(self)@ == c.0
                    &&& r matches Ok(x) && x.0@ == c.1.0 && x.1.deep_view() == c.1.1
                },
            },
    {
        if proposal.event.is_none() && receipt.in_event_seq == 0 {
            let c = match self.event_counter.get(&proposal.process) {
                Some(c) => *c,
                None => 0,
            };
            if c == u64::MAX {
                return Err(SchedulerError::CounterExhausted(proposal.process.duplicate()));
            }
        }
        self.satisfy_proposal(proposal, receipt, completes_proposal)
    }

    /// Allocates the next event of `process`: the event takes the process's
    /// counter (0 if it has none) and the counter advances. An exhausted
    /// counter is refused, changing nothing.
    pub fn allocate_event(&mut self, process: &ProcessId) -> (r: Result<EventId, SchedulerError>)
        requires
            old(self).wf(),
        ensures
            final(self).wf(),
            counter_of(old(self)@.event_counter, process@) == u64::MAX ==> final(self)@ == old(self)@
                && (r matches Err(x) && x@ == SchedulerErrorModel::CounterExhausted(process@)),
            counter_of(old(self)@.event_counter, process@) < u64::MAX ==> {
                &&& final(self)@ == (SchedulerModel {
                    event_counter: old(self)@.event_counter.insert(process@, (counter_of(old(self)@.event_counter, process@) + 1) as u64),
                    ..old(self)@
                })
                &&& r matches Ok(e) && e@ == process@.event(counter_of(old(self)@.event_counter, process@))
            },
    {
        let c = match self.event_counter.get(process) {
            Some(c) => *c,
            None => 0,
        };
        if c == u64::MAX {
            return Err(SchedulerError::CounterExhausted(process.duplicate()));
        }
        self.event_counter.insert(process.duplicate(), c + 1);
        Ok(process.event(c))
    }

    /// Sets the event counter of `process` (used when restoring saved state).
    pub fn set_event_counter(&mut self, process: ProcessId, counter: u64)
        requires
            old(self).wf(),
        ensures
            final(self).wf(),
            final(self)@ == (SchedulerModel {
                event_counter: old(self)@.event_counter.insert(process@, counter),
                ..old(self)@
            }),
    {
        self.event_counter.insert(process, counter);
    }

    /// Appends a proposal to the schedule of `process` (used when restoring saved state).
    pub fn push_scheduled(&mut self, process: ProcessId, proposal: Proposal)
        requires
            old(self).wf(),
        ensures
            final(self).wf(),
            final(self)@ == (SchedulerModel {
                schedule: append_at(old(self)@.schedule, process@, proposal@),
                ..old(self)@
            }),
    {
        self.schedule.push_to(&process, proposal);
    }

    /// Appends a receipt to the history of `event` (used when restoring saved state).
    pub fn push_event_chunk(&mut self, event: EventId, receipt: Receipt)
        requires
            old(self).wf(),
        ensures
            final(self).wf(),
            final(self)@ == (SchedulerModel {
                event_chunks: append_at(old(self)@.event_chunks, event@, receipt@),
                ..old(self)@
            }),
    {
        self.event_chunks.push_to(&event, receipt);
    }

    /// Appends a receipt to the history of `process` (used when restoring saved state).
    pub fn push_process_chunk(&mut self, process: ProcessId, receipt: Receipt)
        requires
            old(self).wf(),
        ensures
            final(self).wf(),
            final(self)@ == (SchedulerModel {
                process_chunks: append_at(old(self)@.process_chunks, process@, receipt@),
                ..old(self)@
            }),
    {
        self.process_chunks.push_to(&process, receipt);
    }
}


impl Default for InMemoryScheduler {
    fn default() -> (r: InMemoryScheduler)
        ensures
            r.wf(),
            r@.event_chunks == Map::<EventIdModel, Seq<ReceiptModel>>::empty(),
            r@.process_chunks == Map::<ProcessIdModel, Seq<ReceiptModel>>::empty(),
            r@.schedule == Map::<ProcessIdModel, Seq<ProposalModel>>::empty(),
            r@.event_counter == Map::<ProcessIdModel, u64>::empty(),
    {
        InMemoryScheduler::new()
    }
}

impl Scheduler for InMemoryScheduler {
    closed spec fn well_formed(&self) -> bool {
        self.wf()
    }

    closed spec fn state(&self) -> SchedulerModel {
        self@
    }

    fn add_proposal(&mut self, proposal: Proposal) -> (r: u64) {
        InMemoryScheduler::add_proposal(self, proposal)
    }

    fn get_next_proposal(&mut self, process: &ProcessId) -> (r: Option<&Proposal>) {
        InMemoryScheduler::get_next_proposal(self, process)
    }

    fn get_next_event_id(&mut self, process: &ProcessId) -> (r: EventId) {
        InMemoryScheduler::get_next_event_id(self, process)
    }

    fn get_log_seq(&self, process: &ProcessId) -> (r: u64) {
        InMemoryScheduler::get_log_seq(self, process)
    }

    fn satisfy_proposal(&mut self, proposal: &Proposal, receipt: Receipt, completes_proposal: bool) -> (r: Result<(NextAction, Vec<Proposal>), SchedulerError>) {
        InMemoryScheduler::satisfy_proposal(self, proposal, receipt, completes_proposal)
    }

    fn get_chunks_from_event(&self, event: &EventId) -> (r: Option<&Vec<Receipt>>) {
        InMemoryScheduler::get_chunks_from_event(self, event)
    }

    fn get_chunk_from_event(&self, event: &EventId, chunk_seq: u64) -> (r: Option<&Receipt>) {
        InMemoryScheduler::get_chunk_from_event(self, event, chunk_seq)
    }

    fn stateless_satisfy(&mut self, proposal: &Proposal, reply: Vec<u8>) -> (r: Result<(NextAction, Vec<Proposal>), SchedulerError>) {
        InMemoryScheduler::stateless_satisfy(self, proposal, reply)
    }
}

} // verus!
