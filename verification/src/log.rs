//! The chunk log: per-process histories of events and of the chunks they are
//! executed in, with the queue of pending events and the set of running ones.
use vstd::prelude::*;
use crate::assoc::{AssocMap, KeyEq, append_at, seq_at};

verus! {

/// The model of a log [`ProcessId`].
pub struct LogProcessModel {
    pub app: Seq<char>,
    pub proc: Seq<char>,
}

/// The model of a log [`EventId`].
pub struct LogEventModel {
    pub proc: LogProcessModel,
    pub seq: u64,
}

/// The model of a [`ChunkStatus`].
pub enum ChunkStatusModel {
    Start,
    Middle,
    End(Option<Seq<char>>),
}

/// The model of an [`EventStatus`].
pub enum EventStatusModel {
    Pending,
    Running,
    Completed(Option<Seq<char>>),
}

/// The model of a [`StateChange`].
pub enum StateChangeModel {
    KVSet { key: Seq<char>, value: Seq<char> },
}

/// The model of a [`ChunkInput`].
pub struct ChunkInputModel {
    pub itype: Seq<char>,
    pub value: Seq<char>,
}

/// The model of an [`Event`].
pub struct EventModel {
    pub id: LogEventModel,
    pub cause: Option<LogEventModel>,
    pub args: Option<Seq<char>>,
    pub status: EventStatusModel,
    pub metadata: Option<Seq<char>>,
}

/// The model of a [`Chunk`].
pub struct ChunkModel {
    pub event_id: LogEventModel,
    pub chunk_seq: u64,
    pub log_seq: u64,
    pub status: ChunkStatusModel,
    pub inputs: Seq<ChunkInputModel>,
    pub effects: Seq<EventModel>,
    pub state: Seq<StateChangeModel>,
}

#[derive(Debug, Clone, PartialEq, Eq, Hash)]
pub struct ProcessId {
    pub app: String,
    pub proc: String,
}

#[derive(Debug, Clone, PartialEq, Eq, Hash)]
pub struct EventId {
    pub proc: ProcessId,
    pub seq: u64,
}

#[derive(Debug, Clone, PartialEq)]
pub enum ChunkStatus {
    Start,
    Middle,
    End(Option<String>),
}

#[derive(Debug, Clone, PartialEq)]
pub enum EventStatus {
    Pending,
    Running,
    /// The return value of the execution
    Completed(Option<String>),
}

#[derive(Debug, Clone, PartialEq)]
pub enum StateChange {
    KVSet { key: String, value: String },
}

/// Chunk inputs, used for replaying any indeterminism
#[derive(Debug, Clone, PartialEq, Eq, Hash)]
pub struct ChunkInput {
    pub itype: String,
    pub value: String,
}

#[derive(Debug, Clone, PartialEq)]
pub struct Event {
    /// This event's ID
    pub id: EventId,
    /// The event ID which caused this event
    pub cause: Option<EventId>,
    /// Arguments passed to the event, serialized as a JSON array.
    pub args: Option<String>,
    /// The status of a given event.
    pub status: EventStatus,
    /// Any optional metadata
    pub metadata: Option<String>,
}

#[derive(Debug, Clone, PartialEq)]
pub struct Chunk {
    /// ID of the event this chunk falls under
    pub event_id: EventId,
    /// Chunk's position within its event
    pub chunk_seq: u64,
    /// Chunk's position in the chunk log of its process
    pub log_seq: u64,
    /// Whether this chunk marks an end to the event or not
    pub status: ChunkStatus,
    /// Any inputs returned to system calls, kept for replay
    pub inputs: Vec<ChunkInput>,
    /// Any outgoing messages
    pub effects: Vec<Event>,
    /// Any state changes, such as setting KV
    pub state: Vec<StateChange>,
}

impl DeepView for ProcessId {
    type V = LogProcessModel;

    open spec fn deep_view(&self) -> LogProcessModel {
        LogProcessModel { app: self.app@, proc: self.proc@ }
    }
}

impl View for ProcessId {
    type V = LogProcessModel;

    open spec fn view(&self) -> LogProcessModel {
        self.deep_view()
    }
}

impl DeepView for EventId {
    type V = LogEventModel;

    open spec fn deep_view(&self) -> LogEventModel {
        LogEventModel { proc: self.proc@, seq: self.seq }
    }
}

impl View for EventId {
    type V = LogEventModel;

    open spec fn view(&self) -> LogEventModel {
        self.deep_view()
    }
}

impl DeepView for ChunkStatus {
    type V = ChunkStatusModel;

    open spec fn deep_view(&self) -> ChunkStatusModel {
        match self {
            ChunkStatus::Start => ChunkStatusModel::Start,
            ChunkStatus::Middle => ChunkStatusModel::Middle,
            ChunkStatus::End(d) => ChunkStatusModel::End(d.deep_view()),
        }
    }
}

impl DeepView for EventStatus {
    type V = EventStatusModel;

    open spec fn deep_view(&self) -> EventStatusModel {
        match self {
            EventStatus::Pending => EventStatusModel::Pending,
            EventStatus::Running => EventStatusModel::Running,
            EventStatus::Completed(d) => EventStatusModel::Completed(d.deep_view()),
        }
    }
}

impl DeepView for StateChange {
    type V = StateChangeModel;

    open spec fn deep_view(&self) -> StateChangeModel {
        match self {
            StateChange::KVSet { key, value } => StateChangeModel::KVSet { key: key@, value: value@ },
        }
    }
}

impl DeepView for ChunkInput {
    type V = ChunkInputModel;

    open spec fn deep_view(&self) -> ChunkInputModel {
        ChunkInputModel { itype: self.itype@, value: self.value@ }
    }
}

impl DeepView for Event {
    type V = EventModel;

    open spec fn deep_view(&self) -> EventModel {
        EventModel {
            id: self.id@,
            cause: self.cause.deep_view(),
            args: self.args.deep_view(),
            status: self.status.deep_view(),
            metadata: self.metadata.deep_view(),
        }
    }
}

impl View for Event {
    type V = EventModel;

    open spec fn view(&self) -> EventModel {
        self.deep_view()
    }
}

impl DeepView for Chunk {
    type V = ChunkModel;

    open spec fn deep_view(&self) -> ChunkModel {
        ChunkModel {
            event_id: self.event_id@,
            chunk_seq: self.chunk_seq,
            log_seq: self.log_seq,
            status: self.status.deep_view(),
            inputs: self.inputs.deep_view(),
            effects: self.effects.deep_view(),
            state: self.state.deep_view(),
        }
    }
}

impl View for Chunk {
    type V = ChunkModel;

    open spec fn view(&self) -> ChunkModel {
        self.deep_view()
    }
}

fn copy_opt_string(s: &Option<String>) -> (r: Option<String>)
    ensures
        r.deep_view() == s.deep_view(),
{
    match s {
        Some(x) => Some(x.clone()),
        None => None,
    }
}

impl ProcessId {
    pub fn new(app: String, proc: String) -> (r: ProcessId)
        ensures
            r@ == (LogProcessModel { app: app@, proc: proc@ }),
    {
        ProcessId { app, proc }
    }

    pub fn app(&self) -> (r: &String)
        ensures
            r@ == self@.app,
    {
        &self.app
    }

    pub fn proc(&self) -> (r: &String)
        ensures
            r@ == self@.proc,
    {
        &self.proc
    }

    pub fn duplicate(&self) -> (r: ProcessId)
        ensures
            r@ == self@,
    {
        ProcessId { app: self.app.clone(), proc: self.proc.clone() }
    }
}

impl KeyEq for ProcessId {
    fn key_eq(&self, other: &Self) -> (r: bool) {
        self.app == other.app && self.proc == other.proc
    }

    fn key_clone(&self) -> (r: Self) {
        self.duplicate()
    }
}

impl EventId {
    pub fn new(proc: ProcessId, seq: u64) -> (r: EventId)
        ensures
            r@ == (LogEventModel { proc: proc@, seq }),
    {
        EventId { proc, seq }
    }

    pub fn proc(&self) -> (r: &ProcessId)
        ensures
            r@ == self@.proc,
    {
        &self.proc
    }

    pub fn seq(&self) -> (r: u64)
        ensures
            r == self@.seq,
    {
        self.seq
    }

    pub fn duplicate(&self) -> (r: EventId)
        ensures
            r@ == self@,
    {
        EventId { proc: self.proc.duplicate(), seq: self.seq }
    }
}

impl KeyEq for EventId {
    fn key_eq(&self, other: &Self) -> (r: bool) {
        self.seq == other.seq && self.proc.key_eq(&other.proc)
    }

    fn key_clone(&self) -> (r: Self) {
        self.duplicate()
    }
}

impl ChunkStatus {
    pub fn duplicate(&self) -> (r: ChunkStatus)
        ensures
            r.deep_view() == self.deep_view(),
    {
        match self {
            ChunkStatus::Start => ChunkStatus::Start,
            ChunkStatus::Middle => ChunkStatus::Middle,
            ChunkStatus::End(d) => ChunkStatus::End(copy_opt_string(d)),
        }
    }
}

impl EventStatus {
    pub fn duplicate(&self) -> (r: EventStatus)
        ensures
            r.deep_view() == self.deep_view(),
    {
        match self {
            EventStatus::Pending => EventStatus::Pending,
            EventStatus::Running => EventStatus::Running,
            EventStatus::Completed(d) => EventStatus::Completed(copy_opt_string(d)),
        }
    }
}

impl Event {
    pub fn duplicate(&self) -> (r: Event)
        ensures
            r@ == self@,
    {
        Event {
            id: self.id.duplicate(),
            cause: match &self.cause {
                Some(c) => Some(c.duplicate()),
                None => None,
            },
            args: copy_opt_string(&self.args),
            status: self.status.duplicate(),
            metadata: copy_opt_string(&self.metadata),
        }
    }
}

fn copy_inputs(v: &Vec<ChunkInput>) -> (r: Vec<ChunkInput>)
    ensures
        r.deep_view() == v.deep_view(),
{
    let mut r: Vec<ChunkInput> = Vec::new();
    let mut i: usize = 0;
    while i < v.len()
        invariant
            i <= v.len(),
            r.deep_view() =~= v.deep_view().take(i as int),
        decreases v.len() - i,
    {
        let ghost prev = r.deep_view();
        let d = ChunkInput { itype: v[i].itype.clone(), value: v[i].value.clone() };
        r.push(d);
        assert(r.deep_view() =~= prev.push(d.deep_view()));
        assert(v.deep_view().take(i + 1) =~= v.deep_view().take(i as int).push(v@[i as int].deep_view()));
        i = i + 1;
    }
    assert(v.deep_view().take(v.len() as int) =~= v.deep_view());
    r
}

fn copy_events(v: &Vec<Event>) -> (r: Vec<Event>)
    ensures
        r.deep_view() == v.deep_view(),
{
    let mut r: Vec<Event> = Vec::new();
    let mut i: usize = 0;
    while i < v.len()
        invariant
            i <= v.len(),
            r.deep_view() =~= v.deep_view().take(i as int),
        decreases v.len() - i,
    {
        let ghost prev = r.deep_view();
        let d = v[i].duplicate();
        r.push(d);
        assert(r.deep_view() =~= prev.push(d.deep_view()));
        assert(v.deep_view().take(i + 1) =~= v.deep_view().take(i as int).push(v@[i as int].deep_view()));
        i = i + 1;
    }
    assert(v.deep_view().take(v.len() as int) =~= v.deep_view());
    r
}

fn copy_changes(v: &Vec<StateChange>) -> (r: Vec<StateChange>)
    ensures
        r.deep_view() == v.deep_view(),
{
    let mut r: Vec<StateChange> = Vec::new();
    let mut i: usize = 0;
    while i < v.len()
        invariant
            i <= v.len(),
            r.deep_view() =~= v.deep_view().take(i as int),
        decreases v.len() - i,
    {
        let ghost prev = r.deep_view();
        let d = match &v[i] {
            StateChange::KVSet { key, value } => StateChange::KVSet { key: key.clone(), value: value.clone() },
        };
        r.push(d);
        assert(r.deep_view() =~= prev.push(d.deep_view()));
        assert(v.deep_view().take(i + 1) =~= v.deep_view().take(i as int).push(v@[i as int].deep_view()));
        i = i + 1;
    }
    assert(v.deep_view().take(v.len() as int) =~= v.deep_view());
    r
}

impl Chunk {
    pub fn duplicate(&self) -> (r: Chunk)
        ensures
            r@ == self@,
    {
        Chunk {
            event_id: self.event_id.duplicate(),
            chunk_seq: self.chunk_seq,
            log_seq: self.log_seq,
            status: self.status.duplicate(),
            inputs: copy_inputs(&self.inputs),
            effects: copy_events(&self.effects),
            state: copy_changes(&self.state),
        }
    }
}


/// Why the log refused a chunk or an event.
#[derive(Debug, Clone, Copy, PartialEq, Eq, Structural)]
pub enum LogError {
    NoEvent,
    ChunkIdMismatch,
    ChunkSeqMismatch,
    EventCompleted,
    EventIdMismatch,
}

impl LogError {
    /// The human-readable message for this error.
    pub fn message(&self) -> (r: String)
        ensures
            r@ == match *self {
                LogError::NoEvent => "no event"@,
                LogError::ChunkIdMismatch => "chunk ID mismatch"@,
                LogError::ChunkSeqMismatch => "chunk seq mismatch"@,
                LogError::EventCompleted => "event completed"@,
                LogError::EventIdMismatch => "event ID mismatch"@,
            },
    {
        match self {
            LogError::NoEvent => String::from_str("no event"),
            LogError::ChunkIdMismatch => String::from_str("chunk ID mismatch"),
            LogError::ChunkSeqMismatch => String::from_str("chunk seq mismatch"),
            LogError::EventCompleted => String::from_str("event completed"),
            LogError::EventIdMismatch => String::from_str("event ID mismatch"),
        }
    }
}

/// The model of an [`InMemoryLog`].
pub struct LogModel {
    /// The chunk log of each process, by log sequence number.
    pub chunks: Map<LogProcessModel, Seq<ChunkModel>>,
    /// The events of each process, by event sequence number.
    pub events: Map<LogProcessModel, Seq<EventModel>>,
    /// The log sequence numbers of each event's chunks, in chunk order.
    pub event_chunks: Map<LogEventModel, Seq<u64>>,
    /// The pending events of each process, oldest first.
    pub queue: Map<LogProcessModel, Seq<LogEventModel>>,
    /// The running events of every process, each once, in ascending order of
    /// their sequence numbers (events with equal numbers in the order they started).
    pub running: Seq<LogEventModel>,
}

/// The entries of `s` whose sequence number is at most `k`, in order.
pub open spec fn seq_at_most(s: Seq<LogEventModel>, k: u64) -> Seq<LogEventModel>
    decreases s.len(),
{
    if s.len() == 0 {
        s
    } else if s.last().seq <= k {
        seq_at_most(s.drop_last(), k).push(s.last())
    } else {
        seq_at_most(s.drop_last(), k)
    }
}

/// The entries of `s` whose sequence number is above `k`, in order.
pub open spec fn seq_above(s: Seq<LogEventModel>, k: u64) -> Seq<LogEventModel>
    decreases s.len(),
{
    if s.len() == 0 {
        s
    } else if s.last().seq > k {
        seq_above(s.drop_last(), k).push(s.last())
    } else {
        seq_above(s.drop_last(), k)
    }
}

/// The running set without event `id`.
pub open spec fn drop_running(s: Seq<LogEventModel>, id: LogEventModel) -> Seq<LogEventModel>
    decreases s.len(),
{
    if s.len() == 0 {
        s
    } else if s.last() != id {
        drop_running(s.drop_last(), id).push(s.last())
    } else {
        drop_running(s.drop_last(), id)
    }
}

/// The running set with event `id` in it once, after every other event whose
/// sequence number is at most its own and before those above it.
pub open spec fn put_running(s: Seq<LogEventModel>, id: LogEventModel) -> Seq<LogEventModel> {
    let w = drop_running(s, id);
    seq_at_most(w, id.seq).push(id) + seq_above(w, id.seq)
}

/// Sequence numbers never decrease along `s`, and no event occurs twice.
pub open spec fn running_ordered(s: Seq<LogEventModel>) -> bool {
    &&& forall|i: int, j: int| 0 <= i < j < s.len() ==> #[trigger] s[i].seq <= #[trigger] s[j].seq
    &&& forall|i: int, j: int| 0 <= i < j < s.len() ==> #[trigger] s[i] != #[trigger] s[j]
}

/// The queue without the events of sequence number `seq`.
pub open spec fn without_seq(q: Seq<LogEventModel>, seq: u64) -> Seq<LogEventModel>
    decreases q.len(),
{
    if q.len() == 0 {
        q
    } else if q.last().seq != seq {
        without_seq(q.drop_last(), seq).push(q.last())
    } else {
        without_seq(q.drop_last(), seq)
    }
}

/// The chunks at the given log positions, skipping positions out of range.
pub open spec fn select_chunks(cs: Seq<ChunkModel>, idx: Seq<u64>) -> Seq<ChunkModel>
    decreases idx.len(),
{
    if idx.len() == 0 {
        Seq::empty()
    } else if idx.last() < cs.len() {
        select_chunks(cs, idx.drop_last()).push(cs[idx.last() as int])
    } else {
        select_chunks(cs, idx.drop_last())
    }
}

/// The events with the given identifiers, skipping those the log lacks.
pub open spec fn lookup_events(events: Map<LogProcessModel, Seq<EventModel>>, ids: Seq<LogEventModel>) -> Seq<EventModel>
    decreases ids.len(),
{
    if ids.len() == 0 {
        Seq::empty()
    } else {
        let id = ids.last();
        let rest = lookup_events(events, ids.drop_last());
        if events.contains_key(id.proc) && id.seq < events[id.proc].len() {
            rest.push(events[id.proc][id.seq as int])
        } else {
            rest
        }
    }
}

/// The first rule a chunk breaks, if any: its event must exist, it must come
/// next in its process's chunk log and in its event, and the event must not
/// have completed.
pub open spec fn chunk_error(l: LogModel, c: ChunkModel) -> Option<LogError> {
    let p = c.event_id.proc;
    let evs = seq_at(l.events, p);
    if c.event_id.seq >= evs.len() {
        Some(LogError::NoEvent)
    } else if c.log_seq != seq_at(l.chunks, p).len() {
        Some(LogError::ChunkIdMismatch)
    } else if c.chunk_seq != seq_at(l.event_chunks, c.event_id).len() {
        Some(LogError::ChunkSeqMismatch)
    } else if evs[c.event_id.seq as int].status is Completed {
        Some(LogError::EventCompleted)
    } else {
        None
    }
}

/// The log once a chunk's process and event have (possibly empty) entries;
/// these stay even when the chunk is refused.
pub open spec fn chunk_prepared(l: LogModel, c: ChunkModel) -> LogModel {
    LogModel {
        chunks: crate::assoc::with_key(l.chunks, c.event_id.proc),
        events: crate::assoc::with_key(l.events, c.event_id.proc),
        event_chunks: crate::assoc::with_key(l.event_chunks, c.event_id),
        ..l
    }
}

/// The log after an accepted chunk: a first chunk takes its event off the
/// queue and marks it running; an ending chunk completes the event with its
/// data and removes it from the running set; the chunk joins its process's log
/// and its event's chunk list.
pub open spec fn chunk_commit(l: LogModel, c: ChunkModel) -> LogModel {
    let p = c.event_id.proc;
    let seq = c.event_id.seq;
    let evs = seq_at(l.events, p);
    let queue = if c.chunk_seq == 0 { l.queue.insert(p, without_seq(seq_at(l.queue, p), seq)) } else { l.queue };
    let running1 = if c.chunk_seq == 0 { put_running(l.running, c.event_id) } else { l.running };
    let events = match c.status {
        ChunkStatusModel::End(d) => l.events.insert(p, evs.update(seq as int, EventModel { status: EventStatusModel::Completed(d), ..evs[seq as int] })),
        _ => crate::assoc::with_key(l.events, p),
    };
    let running = if c.status is End { drop_running(running1, c.event_id) } else { running1 };
    LogModel {
        chunks: append_at(l.chunks, p, c),
        events,
        event_chunks: append_at(l.event_chunks, c.event_id, c.log_seq),
        queue,
        running,
    }
}

/// The log after an accepted event: it joins its process's events, and the
/// queue if pending or the running set if running.
pub open spec fn event_commit(l: LogModel, e: EventModel) -> LogModel {
    let p = e.id.proc;
    LogModel {
        events: append_at(l.events, p, e),
        queue: if e.status is Pending { append_at(l.queue, p, e.id) } else { l.queue },
        running: if e.status is Running { put_running(l.running, e.id) } else { l.running },
        ..l
    }
}

/// The chunk at position `cs` of event `id`, if the log has it.
pub open spec fn chunk_in_event(l: LogModel, id: LogEventModel, cs: u64) -> Option<ChunkModel> {
    if l.event_chunks.contains_key(id) && cs < l.event_chunks[id].len() && l.chunks.contains_key(id.proc)
        && l.event_chunks[id][cs as int] < l.chunks[id.proc].len() {
        Some(l.chunks[id.proc][l.event_chunks[id][cs as int] as int])
    } else {
        None
    }
}

/// What a filter `f` of `s` keeps: entries of `s`, in their order.
pub open spec fn sub_of(f: Seq<LogEventModel>, s: Seq<LogEventModel>) -> bool {
    forall|i: int| 0 <= i < f.len() ==> s.contains(#[trigger] f[i])
}

proof fn lemma_filter_sub(s: Seq<LogEventModel>, f: Seq<LogEventModel>, g: Seq<LogEventModel>, keep: bool)
    requires
        s.len() > 0,
        sub_of(f, s.drop_last()),
        g == (if keep { f.push(s.last()) } else { f }),
    ensures
        sub_of(g, s),
{
    let t = s.drop_last();
    assert forall|i: int| 0 <= i < g.len() implies s.contains(#[trigger] g[i]) by {
        if i < f.len() {
            assert(g[i] == f[i]);
            let j = choose|j: int| 0 <= j < t.len() && t[j] == f[i];
            assert(s[j] == t[j]);
        } else {
            assert(keep);
            assert(g[i] == s.last());
            assert(s[s.len() - 1] == g[i]);
        }
    }
}

proof fn lemma_filter_step(s: Seq<LogEventModel>, f: Seq<LogEventModel>, g: Seq<LogEventModel>, keep: bool)
    requires
        s.len() > 0,
        running_ordered(s),
        running_ordered(f),
        sub_of(f, s.drop_last()),
        g == (if keep { f.push(s.last()) } else { f }),
    ensures
        running_ordered(g),
        sub_of(g, s),
{
    let t = s.drop_last();
    assert forall|i: int| 0 <= i < f.len() implies #[trigger] f[i].seq <= s.last().seq && f[i] != s.last() by {
        let j = choose|j: int| 0 <= j < t.len() && t[j] == f[i];
        assert(s[j] == t[j]);
        assert(s[s.len() - 1] == s.last());
    }
    lemma_filter_sub(s, f, g, keep);
    assert forall|i: int, j: int| 0 <= i < j < g.len() implies #[trigger] g[i].seq <= #[trigger] g[j].seq by {
        if j < f.len() {
            assert(g[i] == f[i] && g[j] == f[j]);
        } else {
            assert(g[i] == f[i]);
        }
    }
    assert forall|i: int, j: int| 0 <= i < j < g.len() implies #[trigger] g[i] != #[trigger] g[j] by {
        if j < f.len() {
            assert(g[i] == f[i] && g[j] == f[j]);
        } else {
            assert(g[i] == f[i]);
        }
    }
}

proof fn lemma_at_most(s: Seq<LogEventModel>, k: u64)
    requires
        running_ordered(s),
    ensures
        running_ordered(seq_at_most(s, k)),
        sub_of(seq_at_most(s, k), s),
        forall|i: int| 0 <= i < seq_at_most(s, k).len() ==> #[trigger] seq_at_most(s, k)[i].seq <= k,
    decreases s.len(),
{
    if s.len() > 0 {
        let t = s.drop_last();
        assert(running_ordered(t));
        lemma_at_most(t, k);
        lemma_filter_step(s, seq_at_most(t, k), seq_at_most(s, k), s.last().seq <= k);
    }
}

proof fn lemma_above(s: Seq<LogEventModel>, k: u64)
    requires
        running_ordered(s),
    ensures
        running_ordered(seq_above(s, k)),
        sub_of(seq_above(s, k), s),
        forall|i: int| 0 <= i < seq_above(s, k).len() ==> #[trigger] seq_above(s, k)[i].seq > k,
    decreases s.len(),
{
    if s.len() > 0 {
        let t = s.drop_last();
        assert(running_ordered(t));
        lemma_above(t, k);
        lemma_filter_step(s, seq_above(t, k), seq_above(s, k), s.last().seq > k);
    }
}

proof fn lemma_drop(s: Seq<LogEventModel>, id: LogEventModel)
    requires
        running_ordered(s),
    ensures
        running_ordered(drop_running(s, id)),
        sub_of(drop_running(s, id), s),
        forall|i: int| 0 <= i < drop_running(s, id).len() ==> #[trigger] drop_running(s, id)[i] != id,
    decreases s.len(),
{
    if s.len() > 0 {
        let t = s.drop_last();
        assert(running_ordered(t));
        lemma_drop(t, id);
        lemma_filter_step(s, drop_running(t, id), drop_running(s, id), s.last() != id);
    }
}

/// The running set stays ordered, with each event once, when an event is put
/// in or taken out.
pub proof fn lemma_running_ordered(s: Seq<LogEventModel>, id: LogEventModel)
    requires
        running_ordered(s),
    ensures
        running_ordered(put_running(s, id)),
        running_ordered(drop_running(s, id)),
{
    lemma_drop(s, id);
    let w = drop_running(s, id);
    lemma_at_most(w, id.seq);
    lemma_above(w, id.seq);
    let b = seq_at_most(w, id.seq);
    let a = seq_above(w, id.seq);
    let p = b.push(id) + a;
    assert forall|i: int| 0 <= i < b.len() implies #[trigger] b[i] != id by {
        let j = choose|j: int| 0 <= j < w.len() && w[j] == b[i];
    }
    assert forall|i: int| 0 <= i < a.len() implies #[trigger] a[i] != id by {
        let j = choose|j: int| 0 <= j < w.len() && w[j] == a[i];
    }
    assert forall|i: int, j: int| 0 <= i < j < p.len() implies #[trigger] p[i].seq <= #[trigger] p[j].seq by {
        if j < b.len() {
        } else if j == b.len() {
        } else if i <= b.len() {
            assert(p[j] == a[j - b.len() - 1]);
        } else {
            assert(p[i] == a[i - b.len() - 1]);
            assert(p[j] == a[j - b.len() - 1]);
        }
    }
    assert forall|i: int, j: int| 0 <= i < j < p.len() implies #[trigger] p[i] != #[trigger] p[j] by {
        if j < b.len() {
        } else if j == b.len() {
        } else if i < b.len() {
            assert(p[j] == a[j - b.len() - 1]);
            assert(p[i].seq <= id.seq);
            assert(p[j].seq > id.seq);
        } else if i == b.len() {
            assert(p[j] == a[j - b.len() - 1]);
        } else {
            assert(p[i] == a[i - b.len() - 1]);
            assert(p[j] == a[j - b.len() - 1]);
        }
    }
}

proof fn lemma_partition(w: Seq<LogEventModel>, k: u64)
    requires
        running_ordered(w),
    ensures
        seq_at_most(w, k) + seq_above(w, k) == w,
    decreases w.len(),
{
    if w.len() == 0 {
        assert(seq_at_most(w, k) + seq_above(w, k) =~= w);
    } else {
        let t = w.drop_last();
        assert(running_ordered(t));
        lemma_partition(t, k);
        if w.last().seq > k {
            assert(seq_at_most(w, k) + seq_above(w, k) =~= (seq_at_most(t, k) + seq_above(t, k)).push(w.last()));
        } else {
            lemma_above(t, k);
            if seq_above(t, k).len() > 0 {
                let j = choose|j: int| 0 <= j < t.len() && t[j] == seq_above(t, k)[0];
                assert(w[j] == t[j]);
                assert(w[w.len() - 1] == w.last());
                assert(false);
            }
            assert(seq_above(t, k) =~= Seq::<LogEventModel>::empty());
            assert(seq_at_most(w, k) + seq_above(w, k) =~= (seq_at_most(t, k) + seq_above(t, k)).push(w.last()));
        }
    }
}

proof fn lemma_drop_split(s: Seq<LogEventModel>, id: LogEventModel)
    requires
        running_ordered(s),
    ensures
        seq_at_most(drop_running(s, id), id.seq) + seq_above(drop_running(s, id), id.seq) == drop_running(s, id),
{
    lemma_drop(s, id);
    lemma_partition(drop_running(s, id), id.seq);
}

proof fn lemma_drop_members(s: Seq<LogEventModel>, id: LogEventModel, x: LogEventModel)
    ensures
        drop_running(s, id).contains(x) <==> (s.contains(x) && x != id),
    decreases s.len(),
{
    if s.len() > 0 {
        let t = s.drop_last();
        lemma_drop_members(t, id, x);
        let d = drop_running(s, id);
        let dt = drop_running(t, id);
        if s.contains(x) && x != id {
            let j = choose|j: int| 0 <= j < s.len() && s[j] == x;
            if j < t.len() {
                assert(t[j] == x);
                let i = choose|i: int| 0 <= i < dt.len() && dt[i] == x;
                if s.last() != id {
                    assert(d[i] == x);
                } else {
                    assert(d[i] == x);
                }
            } else {
                assert(d[d.len() - 1] == x);
            }
        }
        if d.contains(x) {
            let i = choose|i: int| 0 <= i < d.len() && d[i] == x;
            if i < dt.len() {
                assert(dt[i] == x);
                let j = choose|j: int| 0 <= j < t.len() && t[j] == x;
                assert(s[j] == x);
            } else {
                assert(s[s.len() - 1] == x);
            }
        }
    } else {
        assert(!drop_running(s, id).contains(x));
    }
}

proof fn lemma_split_members(w: Seq<LogEventModel>, k: u64, x: LogEventModel)
    ensures
        w.contains(x) <==> (seq_at_most(w, k).contains(x) || seq_above(w, k).contains(x)),
    decreases w.len(),
{
    if w.len() > 0 {
        let t = w.drop_last();
        lemma_split_members(t, k, x);
        let b = seq_at_most(w, k);
        let a = seq_above(w, k);
        let bt = seq_at_most(t, k);
        let at = seq_above(t, k);
        if w.contains(x) {
            let j = choose|j: int| 0 <= j < w.len() && w[j] == x;
            if j < t.len() {
                assert(t[j] == x);
                if bt.contains(x) {
                    let i = choose|i: int| 0 <= i < bt.len() && bt[i] == x;
                    assert(b[i] == x);
                } else {
                    let i = choose|i: int| 0 <= i < at.len() && at[i] == x;
                    assert(a[i] == x);
                }
            } else if w.last().seq <= k {
                assert(b[b.len() - 1] == x);
            } else {
                assert(a[a.len() - 1] == x);
            }
        }
        if b.contains(x) {
            let i = choose|i: int| 0 <= i < b.len() && b[i] == x;
            if i < bt.len() {
                assert(bt[i] == x);
                let j = choose|j: int| 0 <= j < t.len() && t[j] == x;
                assert(w[j] == x);
            } else {
                assert(w[w.len() - 1] == x);
            }
        }
        if a.contains(x) {
            let i = choose|i: int| 0 <= i < a.len() && a[i] == x;
            if i < at.len() {
                assert(at[i] == x);
                let j = choose|j: int| 0 <= j < t.len() && t[j] == x;
                assert(w[j] == x);
            } else {
                assert(w[w.len() - 1] == x);
            }
        }
    }
}

/// Which events the running set holds after an event is put in or taken out.
pub proof fn lemma_running_members(s: Seq<LogEventModel>, id: LogEventModel, x: LogEventModel)
    ensures
        put_running(s, id).contains(id),
        put_running(s, id).contains(x) <==> (s.contains(x) || x == id),
        drop_running(s, id).contains(x) <==> (s.contains(x) && x != id),
{
    let w = drop_running(s, id);
    let b = seq_at_most(w, id.seq);
    let a = seq_above(w, id.seq);
    let p = b.push(id) + a;
    lemma_drop_members(s, id, x);
    lemma_split_members(w, id.seq, x);
    assert(p[b.len() as int] == id);
    if b.contains(x) {
        let i = choose|i: int| 0 <= i < b.len() && b[i] == x;
        assert(p[i] == x);
    }
    if a.contains(x) {
        let i = choose|i: int| 0 <= i < a.len() && a[i] == x;
        assert(p[b.len() + 1 + i] == x);
    }
    if p.contains(x) && x != id {
        let i = choose|i: int| 0 <= i < p.len() && p[i] == x;
        if i < b.len() {
            assert(b[i] == x);
        } else if i > b.len() {
            assert(a[i - b.len() - 1] == x);
        }
    }
}

/// Splits a running set into the events other than `id` whose sequence number
/// is at most `id`'s and those above it.
fn split_running(s: &Vec<EventId>, id: &EventId) -> (r: (Vec<EventId>, Vec<EventId>))
    ensures
        r.0.deep_view() == seq_at_most(drop_running(s.deep_view(), id@), id@.seq),
        r.1.deep_view() == seq_above(drop_running(s.deep_view(), id@), id@.seq),
{
    let ghost sv = s.deep_view();
    let ghost k = id@.seq;
    let mut below: Vec<EventId> = Vec::new();
    let mut above: Vec<EventId> = Vec::new();
    let mut i: usize = 0;
    while i < s.len()
        invariant
            i <= s.len(),
            sv == s.deep_view(),
            k == id@.seq,
            below.deep_view() == seq_at_most(drop_running(sv.take(i as int), id@), k),
            above.deep_view() == seq_above(drop_running(sv.take(i as int), id@), k),
        decreases s.len() - i,
    {
        let ghost b0 = below.deep_view();
        let ghost a0 = above.deep_view();
        let ghost t = sv.take(i as int);
        assert(sv.take(i + 1).drop_last() =~= t);
        assert(sv.take(i + 1).last() == sv[i as int]);
        let e = &s[i];
        if !e.key_eq(id) {
            let ghost w = drop_running(sv.take(i + 1), id@);
            assert(w.drop_last() == drop_running(t, id@));
            assert(w.last() == sv[i as int]);
            if e.seq <= id.seq {
                let d = e.duplicate();
                below.push(d);
                assert(below.deep_view() =~= b0.push(d@));
            } else {
                let d = e.duplicate();
                above.push(d);
                assert(above.deep_view() =~= a0.push(d@));
            }
        }
        i = i + 1;
    }
    assert(sv.take(s.len() as int) =~= sv);
    (below, above)
}

fn join_running(below: Vec<EventId>, middle: Option<EventId>, above: &Vec<EventId>) -> (r: Vec<EventId>)
    ensures
        r.deep_view() == match middle {
            Some(m) => below.deep_view().push(m@) + above.deep_view(),
            None => below.deep_view() + above.deep_view(),
        },
{
    let mut out = below;
    let ghost start = match &middle {
        Some(m) => out.deep_view().push(m@),
        None => out.deep_view(),
    };
    match middle {
        Some(m) => {
            out.push(m);
            assert(out.deep_view() =~= start);
        },
        None => {},
    }
    let mut i: usize = 0;
    while i < above.len()
        invariant
            i <= above.len(),
            out.deep_view() =~= start + above.deep_view().take(i as int),
        decreases above.len() - i,
    {
        let ghost o0 = out.deep_view();
        let e = above[i].duplicate();
        out.push(e);
        assert(out.deep_view() =~= o0.push(e@));
        assert(above.deep_view().take(i + 1) =~= above.deep_view().take(i as int).push(above.deep_view()[i as int]));
        i = i + 1;
    }
    assert(above.deep_view().take(above.len() as int) =~= above.deep_view());
    out
}

fn without_seq_exec(q: &Vec<EventId>, seq: u64) -> (r: Vec<EventId>)
    ensures
        r.deep_view() == without_seq(q.deep_view(), seq),
{
    let ghost qv = q.deep_view();
    let mut out: Vec<EventId> = Vec::new();
    let mut i: usize = 0;
    while i < q.len()
        invariant
            i <= q.len(),
            qv == q.deep_view(),
            out.deep_view() == without_seq(qv.take(i as int), seq),
        decreases q.len() - i,
    {
        let ghost o0 = out.deep_view();
        assert(qv.take(i + 1).drop_last() =~= qv.take(i as int));
        assert(qv.take(i + 1).last() == qv[i as int]);
        if q[i].seq != seq {
            let e = q[i].duplicate();
            out.push(e);
            assert(out.deep_view() =~= o0.push(e.deep_view()));
        }
        i = i + 1;
    }
    assert(qv.take(q.len() as int) =~= qv);
    out
}

/// A chunk log: the events and chunks of each process, as [`LogModel`]
/// describes them.
pub trait Log {
    spec fn well_formed(&self) -> bool;

    /// The log's contents.
    spec fn state(&self) -> LogModel;

    /// Adds a chunk to the log. Returns the chunk's log_seq on success.
    fn add_chunk(&mut self, chunk: Chunk) -> (r: Result<u64, LogError>)
        requires
            old(self).well_formed(),
        ensures
            final(self).well_formed(),
            match chunk_error(old(self).state(), chunk@) {
                Some(e) => final(self).state() == chunk_prepared(old(self).state(), chunk@) && r == Err::<u64, LogError>(e),
                None => final(self).state() == chunk_commit(old(self).state(), chunk@) && r == Ok::<u64, LogError>(chunk.log_seq),
            },
    ;

    /// Adds an event to the log. Returns the event's seq on success.
    fn add_event(&mut self, event: Event) -> (r: Result<u64, LogError>)
        requires
            old(self).well_formed(),
        ensures
            final(self).well_formed(),
            event@.id.seq != seq_at(old(self).state().events, event@.id.proc).len() ==> {
                &&& final(self).state() == (LogModel {
                    events: crate::assoc::with_key(old(self).state().events, event@.id.proc),
                    ..old(self).state()
                })
                &&& r == Err::<u64, LogError>(LogError::EventIdMismatch)
            },
            event@.id.seq == seq_at(old(self).state().events, event@.id.proc).len() ==> {
                &&& final(self).state() == event_commit(old(self).state(), event@)
                &&& r == Ok::<u64, LogError>(event.id.seq)
            },
    ;

    /// Gets a chunk by event ID and chunk sequence number within that event.
    fn get_chunk_in_event(&self, event_id: EventId, chunk_seq: u64) -> (r: Option<Chunk>)
        requires
            self.well_formed(),
        ensures
            r.deep_view() == chunk_in_event(self.state(), event_id@, chunk_seq),
    ;

    /// Gets a chunk by app_id, proc_id, and log sequence number.
    fn get_chunk_in_log(&self, app_id: String, proc_id: String, log_seq: u64) -> (r: Option<Chunk>)
        requires
            self.well_formed(),
        ensures
            ({
                let p = LogProcessModel { app: app_id@, proc: proc_id@ };
                r.deep_view() == if self.state().chunks.contains_key(p) && log_seq < self.state().chunks[p].len() {
                    Some(self.state().chunks[p][log_seq as int])
                } else {
                    None
                }
            }),
    ;

    /// Gets all chunks for a given event.
    fn get_chunks_in_event(&self, event_id: EventId) -> (r: Option<Vec<Chunk>>)
        requires
            self.well_formed(),
        ensures
            r.deep_view() == if self.state().event_chunks.contains_key(event_id@) && self.state().chunks.contains_key(event_id@.proc) {
                Some(select_chunks(self.state().chunks[event_id@.proc], self.state().event_chunks[event_id@]))
            } else {
                None
            },
    ;

    /// Gets all running events across all processes.
    fn get_running_events(&self) -> (r: Option<Vec<Event>>)
        requires
            self.well_formed(),
        ensures
            r matches Some(v) && v.deep_view() == lookup_events(self.state().events, self.state().running),
    ;

    /// Gets all queued events for a given process.
    fn get_queued_events(&self, app_id: String, proc_id: String) -> (r: Option<Vec<Event>>)
        requires
            self.well_formed(),
        ensures
            ({
                let p = LogProcessModel { app: app_id@, proc: proc_id@ };
                r.deep_view() == if self.state().queue.contains_key(p) && self.state().events.contains_key(p) {
                    Some(lookup_events(self.state().events, self.state().queue[p]))
                } else {
                    None
                }
            }),
    ;
}

pub struct InMemoryLog {
    chunks: AssocMap<ProcessId, Vec<Chunk>>,
    events: AssocMap<ProcessId, Vec<Event>>,
    event_id_to_chunks: AssocMap<EventId, Vec<u64>>,
    queue: AssocMap<ProcessId, Vec<EventId>>,
    running: Vec<EventId>,
}

impl View for InMemoryLog {
    type V = LogModel;

    closed spec fn view(&self) -> LogModel {
        LogModel {
            chunks: self.chunks.model(),
            events: self.events.model(),
            event_chunks: self.event_id_to_chunks.model(),
            queue: self.queue.model(),
            running: self.running.deep_view(),
        }
    }
}

impl InMemoryLog {
    /// The maps are well formed and the running set is ordered by key.
    pub closed spec fn wf(&self) -> bool {
        &&& self.chunks.wf()
        &&& self.events.wf()
        &&& self.event_id_to_chunks.wf()
        &&& self.queue.wf()
        &&& running_ordered(self.running.deep_view())
    }

    /// An empty log.
    pub fn new() -> (r: InMemoryLog)
        ensures
            r.wf(),
            r@.chunks == Map::<LogProcessModel, Seq<ChunkModel>>::empty(),
            r@.events == Map::<LogProcessModel, Seq<EventModel>>::empty(),
            r@.event_chunks == Map::<LogEventModel, Seq<u64>>::empty(),
            r@.queue == Map::<LogProcessModel, Seq<LogEventModel>>::empty(),
            r@.running == Seq::<LogEventModel>::empty(),
    {
        let r = InMemoryLog {
            chunks: AssocMap::new(),
            events: AssocMap::new(),
            event_id_to_chunks: AssocMap::new(),
            queue: AssocMap::new(),
            running: Vec::new(),
        };
        assert(r.running.deep_view() =~= Seq::<LogEventModel>::empty());
        r
    }

    /// Adds a chunk: refused as [`chunk_error`] says (leaving the log as
    /// [`chunk_prepared`] says), else recorded as [`chunk_commit`] says.
    pub fn add_chunk(&mut self, chunk: Chunk) -> (r: Result<u64, LogError>)
        requires
            old(self).wf(),
        ensures
            final(self).wf(),
            match chunk_error(old(self)@, chunk@) {
                Some(e) => final(self)@ == chunk_prepared(old(self)@, chunk@) && r == Err::<u64, LogError>(e),
                None => final(self)@ == chunk_commit(old(self)@, chunk@) && r == Ok::<u64, LogError>(chunk.log_seq),
            },
    {
        let ghost l0 = self@;
        let ghost c = chunk@;
        let p = chunk.event_id.proc.duplicate();
        let id = chunk.event_id.duplicate();
        let seq = chunk.event_id.seq;
        let ei = self.events.ensure_key(&p);
        self.chunks.ensure_key(&p);
        self.event_id_to_chunks.ensure_key(&id);
        assert(self@ == chunk_prepared(l0, c));
        let n_events = self.events.value_at(ei).len();
        if seq >= n_events as u64 {
            return Err(LogError::NoEvent);
        }
        let n_chunks = match self.chunks.get(&p) {
            Some(v) => v.len(),
            None => 0,
        };
        if chunk.log_seq != n_chunks as u64 {
            return Err(LogError::ChunkIdMismatch);
        }
        let n_event_chunks = match self.event_id_to_chunks.get(&id) {
            Some(v) => v.len(),
            None => 0,
        };
        if chunk.chunk_seq != n_event_chunks as u64 {
            return Err(LogError::ChunkSeqMismatch);
        }
        let completed = match &self.events.value_at(ei)[seq as usize].status {
            EventStatus::Completed(_) => true,
            _ => false,
        };
        if completed {
            return Err(LogError::EventCompleted);
        }
        assert(chunk_error(l0, c) is None);

        if chunk.chunk_seq == 0 {
            let qi = self.queue.ensure_key(&p);
            proof {
                self.queue.lemma_at(qi as int);
            }
            let mut q: Vec<EventId> = Vec::new();
            self.queue.swap_at(qi, &mut q);
            let mut q2 = without_seq_exec(&q, seq);
            self.queue.swap_at(qi, &mut q2);
            assert(self.queue.model() =~= l0.queue.insert(p@, without_seq(seq_at(l0.queue, p@), seq)));
            let (below, above) = split_running(&self.running, &id);
            let joined = join_running(below, Some(id.duplicate()), &above);
            proof {
                lemma_running_ordered(self.running.deep_view(), id@);
            }
            self.running = joined;
        }
        let ghost mid = self@;
        assert(mid.queue == chunk_commit(l0, c).queue);
        match &chunk.status {
            ChunkStatus::End(data) => {
                proof {
                    self.events.lemma_at(ei as int);
                }
                let mut evs: Vec<Event> = Vec::new();
                self.events.swap_at(ei, &mut evs);
                let ghost evs0 = evs.deep_view();
                let old_ev = &evs[seq as usize];
                let new_ev = Event {
                    id: old_ev.id.duplicate(),
                    cause: match &old_ev.cause {
                        Some(x) => Some(x.duplicate()),
                        None => None,
                    },
                    args: copy_opt_string(&old_ev.args),
                    status: EventStatus::Completed(copy_opt_string(data)),
                    metadata: copy_opt_string(&old_ev.metadata),
                };
                evs.set(seq as usize, new_ev);
                assert(evs.deep_view() =~= evs0.update(seq as int, new_ev@));
                self.events.swap_at(ei, &mut evs);
                let ghost r0 = self.running.deep_view();
                let (below, above) = split_running(&self.running, &id);
                let joined = join_running(below, None, &above);
                proof {
                    lemma_running_ordered(r0, id@);
                    lemma_drop_split(r0, id@);
                }
                self.running = joined;
            },
            _ => {},
        }
        let log_seq = chunk.log_seq;
        self.event_id_to_chunks.push_to(&id, log_seq);
        self.chunks.push_to(&p, chunk);
        assert(self@.events == chunk_commit(l0, c).events);
        assert(self@.running == chunk_commit(l0, c).running);
        assert(self@.chunks == chunk_commit(l0, c).chunks);
        assert(self@.event_chunks == chunk_commit(l0, c).event_chunks);
        Ok(log_seq)
    }

    /// Adds an event: refused unless it is the next event of its process
    /// (leaving only an empty entry for the process), else recorded as
    /// [`event_commit`] says.
    pub fn add_event(&mut self, event: Event) -> (r: Result<u64, LogError>)
        requires
            old(self).wf(),
        ensures
            final(self).wf(),
            event@.id.seq != seq_at(old(self)@.events, event@.id.proc).len() ==> {
                &&& final(self)@ == (LogModel { events: crate::assoc::with_key(old(self)@.events, event@.id.proc), ..old(self)@ })
                &&& r == Err::<u64, LogError>(LogError::EventIdMismatch)
            },
            event@.id.seq == seq_at(old(self)@.events, event@.id.proc).len() ==> {
                &&& final(self)@ == event_commit(old(self)@, event@)
                &&& r == Ok::<u64, LogError>(event.id.seq)
            },
    {
        let ghost l0 = self@;
        let p = event.id.proc.duplicate();
        let ei = self.events.ensure_key(&p);
        let n = self.events.value_at(ei).len();
        let seq = event.id.seq;
        if seq != n as u64 {
            return Err(LogError::EventIdMismatch);
        }
        match &event.status {
            EventStatus::Pending => {
                self.queue.push_to(&p, event.id.duplicate());
            },
            EventStatus::Running => {
                let (below, above) = split_running(&self.running, &event.id);
                let joined = join_running(below, Some(event.id.duplicate()), &above);
                proof {
                    lemma_running_ordered(self.running.deep_view(), event@.id);
                }
                self.running = joined;
            },
            _ => {},
        }
        self.events.push_to(&p, event);
        assert(self@.events == event_commit(l0, event@).events);
        Ok(seq)
    }

    /// The chunk at position `chunk_seq` of `event_id` (see [`chunk_in_event`]).
    pub fn get_chunk_in_event(&self, event_id: EventId, chunk_seq: u64) -> (r: Option<Chunk>)
        requires
            self.wf(),
        ensures
            r.deep_view() == chunk_in_event(self@, event_id@, chunk_seq),
    {
        let chunk_seqs = match self.event_id_to_chunks.get(&event_id) {
            Some(v) => v,
            None => {
                return None;
            },
        };
        if chunk_seq >= chunk_seqs.len() as u64 {
            return None;
        }
        let log_seq = chunk_seqs[chunk_seq as usize];
        let chunks = match self.chunks.get(&event_id.proc) {
            Some(v) => v,
            None => {
                return None;
            },
        };
        if log_seq >= chunks.len() as u64 {
            return None;
        }
        Some(chunks[log_seq as usize].duplicate())
    }

    /// The chunk at position `log_seq` of the log of process `app_id`/`proc_id`.
    pub fn get_chunk_in_log(&self, app_id: String, proc_id: String, log_seq: u64) -> (r: Option<Chunk>)
        requires
            self.wf(),
        ensures
            ({
                let p = LogProcessModel { app: app_id@, proc: proc_id@ };
                r.deep_view() == if self@.chunks.contains_key(p) && log_seq < self@.chunks[p].len() {
                    Some(self@.chunks[p][log_seq as int])
                } else {
                    None
                }
            }),
    {
        let process = ProcessId { app: app_id, proc: proc_id };
        let chunks = match self.chunks.get(&process) {
            Some(v) => v,
            None => {
                return None;
            },
        };
        if log_seq >= chunks.len() as u64 {
            return None;
        }
        Some(chunks[log_seq as usize].duplicate())
    }

    /// All chunks of `event_id` that its process's log holds, in chunk order.
    pub fn get_chunks_in_event(&self, event_id: EventId) -> (r: Option<Vec<Chunk>>)
        requires
            self.wf(),
        ensures
            r.deep_view() == if self@.event_chunks.contains_key(event_id@) && self@.chunks.contains_key(event_id@.proc) {
                Some(select_chunks(self@.chunks[event_id@.proc], self@.event_chunks[event_id@]))
            } else {
                None
            },
    {
        let chunk_seqs = match self.event_id_to_chunks.get(&event_id) {
            Some(v) => v,
            None => {
                return None;
            },
        };
        let chunks = match self.chunks.get(&event_id.proc) {
            Some(v) => v,
            None => {
                return None;
            },
        };
        let ghost cs = chunks.deep_view();
        let ghost idx = chunk_seqs@;
        assert(chunk_seqs.deep_view() =~= idx);
        let mut out: Vec<Chunk> = Vec::new();
        let mut i: usize = 0;
        while i < chunk_seqs.len()
            invariant
                i <= chunk_seqs.len(),
                idx == chunk_seqs@,
                cs == chunks.deep_view(),
                out.deep_view() == select_chunks(cs, idx.take(i as int)),
            decreases chunk_seqs.len() - i,
        {
            let ghost o0 = out.deep_view();
            assert(idx.take(i + 1).drop_last() =~= idx.take(i as int));
            assert(idx.take(i + 1).last() == idx[i as int]);
            let ls = chunk_seqs[i];
            if ls < chunks.len() as u64 {
                let c = chunks[ls as usize].duplicate();
                out.push(c);
                assert(out.deep_view() =~= o0.push(c@));
            }
            i = i + 1;
        }
        assert(idx.take(chunk_seqs.len() as int) =~= idx);
        Some(out)
    }

    fn lookup_exec(&self, ids: &Vec<EventId>) -> (r: Vec<Event>)
        requires
            self.wf(),
        ensures
            r.deep_view() == lookup_events(self@.events, ids.deep_view()),
    {
        let ghost iv = ids.deep_view();
        let mut out: Vec<Event> = Vec::new();
        let mut i: usize = 0;
        while i < ids.len()
            invariant
                self.wf(),
                i <= ids.len(),
                iv == ids.deep_view(),
                out.deep_view() == lookup_events(self@.events, iv.take(i as int)),
            decreases ids.len() - i,
        {
            let ghost o0 = out.deep_view();
            assert(iv.take(i + 1).drop_last() =~= iv.take(i as int));
            assert(iv.take(i + 1).last() == iv[i as int]);
            match self.events.get(&ids[i].proc) {
                Some(evs) => {
                    if ids[i].seq < evs.len() as u64 {
                        let e = evs[ids[i].seq as usize].duplicate();
                        out.push(e);
                        assert(out.deep_view() =~= o0.push(e@));
                    }
                },
                None => {},
            }
            i = i + 1;
        }
        assert(iv.take(ids.len() as int) =~= iv);
        out
    }

    /// The running events of every process, in ascending order of their
    /// sequence numbers.
    pub fn get_running_events(&self) -> (r: Option<Vec<Event>>)
        requires
            self.wf(),
        ensures
            r matches Some(v) && v.deep_view() == lookup_events(self@.events, self@.running),
    {
        Some(self.lookup_exec(&self.running))
    }

    /// The queued events of process `app_id`/`proc_id`, oldest first.
    pub fn get_queued_events(&self, app_id: String, proc_id: String) -> (r: Option<Vec<Event>>)
        requires
            self.wf(),
        ensures
            ({
                let p = LogProcessModel { app: app_id@, proc: proc_id@ };
                r.deep_view() == if self@.queue.contains_key(p) && self@.events.contains_key(p) {
                    Some(lookup_events(self@.events, self@.queue[p]))
                } else {
                    None
                }
            }),
    {
        let process = ProcessId { app: app_id, proc: proc_id };
        let queue = match self.queue.get(&process) {
            Some(q) => q,
            None => {
                return None;
            },
        };
        if !self.events.contains(&process) {
            return None;
        }
        Some(self.lookup_exec(queue))
    }
}


impl Log for InMemoryLog {
    closed spec fn well_formed(&self) -> bool {
        self.wf()
    }

    closed spec fn state(&self) -> LogModel {
        self@
    }

    fn add_chunk(&mut self, chunk: Chunk) -> (r: Result<u64, LogError>) {
        InMemoryLog::add_chunk(self, chunk)
    }

    fn add_event(&mut self, event: Event) -> (r: Result<u64, LogError>) {
        InMemoryLog::add_event(self, event)
    }

    fn get_chunk_in_event(&self, event_id: EventId, chunk_seq: u64) -> (r: Option<Chunk>) {
        InMemoryLog::get_chunk_in_event(self, event_id, chunk_seq)
    }

    fn get_chunk_in_log(&self, app_id: String, proc_id: String, log_seq: u64) -> (r: Option<Chunk>) {
        InMemoryLog::get_chunk_in_log(self, app_id, proc_id, log_seq)
    }

    fn get_chunks_in_event(&self, event_id: EventId) -> (r: Option<Vec<Chunk>>) {
        InMemoryLog::get_chunks_in_event(self, event_id)
    }

    fn get_running_events(&self) -> (r: Option<Vec<Event>>) {
        InMemoryLog::get_running_events(self)
    }

    fn get_queued_events(&self, app_id: String, proc_id: String) -> (r: Option<Vec<Event>>) {
        InMemoryLog::get_queued_events(self, app_id, proc_id)
    }
}

} // verus!
