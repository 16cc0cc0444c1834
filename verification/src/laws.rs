//! Properties of the library that span several operations or all inputs.
use vstd::prelude::*;
use crate::assoc::{append_at, seq_at, with_key};
use crate::in_memory::kv_of;
use crate::log::{
    ChunkModel, ChunkStatusModel, EventModel, EventStatusModel, LogEventModel, LogModel, chunk_commit, chunk_error,
    chunk_prepared, drop_running, event_commit, put_running, running_ordered,
};
use crate::scheduler::{
    ProposalModel, ReceiptModel, SchedulerModel, assign_event, calls_in, call_not_last, commit_receipt,
    counter_of, enqueue_all, notifies_in, prepared, resolution, resolve_source, satisfy_commit, satisfy_error,
    stateless_commit, stateless_error,
};
use crate::actor::registration;
use crate::dispatch::{first_route, without_route};
use crate::mgmt::{be_u32, header_of, lemma_header_value};
use crate::package::{
    PackageStoreModel, StoreErrorModel, added, admission_error, loaded, recorded_version, sha256_of, takes_name,
};
use crate::persist::{
    PersistOpModel, SavedModel, counter_plan, counters_of, histories_fit, lemma_rows_indexed, restored, rows_image,
    rows_in_order, indexed, lemma_indexed_determines, is_target, lemma_enqueue_untouched, lemma_replay_block,
    lemma_replay_concat, lemma_replay_one, lemma_replay_targets, put_schedule, put_targets, replay, resave_block,
    saved_image, satisfy_plan, stateless_plan, target_resaves,
};
use crate::shell::{lemma_tokens_split, split_whitespace, tokens_from};
use crate::text::{lemma_split_once_concat, strip_caret};
use crate::version::{newer, newer_from, part_at};
use crate::types::{AppIdModel, HandlerIdModel, ProcessIdModel, entrypoint_name, parse_app_id, parse_process_id};

verus! {

/// Every history of `a` is a prefix of the same history in `b`.
pub open spec fn histories_extend<K, V>(a: Map<K, Seq<V>>, b: Map<K, Seq<V>>) -> bool {
    forall|k: K| #[trigger] a.contains_key(k) ==> b.contains_key(k) && a[k].is_prefix_of(b[k])
}

/// The scheduler state after a receipt is offered, accepted or not.
pub open spec fn after_satisfy(s: SchedulerModel, prop: ProposalModel, rec: ReceiptModel, completes: bool) -> SchedulerModel {
    match satisfy_error(s, prop, rec) {
        Some(_) => s,
        None => satisfy_commit(s, prop, rec, completes).0,
    }
}

/// The scheduler state after a stateless reply is offered, accepted or not.
pub open spec fn after_stateless(s: SchedulerModel, prop: ProposalModel, reply: Seq<u8>) -> SchedulerModel {
    match stateless_error(s, prop) {
        Some(_) => s,
        None => stateless_commit(s, prop, reply).0,
    }
}

proof fn lemma_with_key_extends<K, V>(m: Map<K, Seq<V>>, k: K)
    ensures
        histories_extend(m, with_key(m, k)),
{
    assert forall|x: K| #[trigger] m.contains_key(x) implies with_key(m, k).contains_key(x) && m[x].is_prefix_of(with_key(m, k)[x]) by {
        assert(m[x].is_prefix_of(m[x])) by {
            assert(m[x].take(m[x].len() as int) =~= m[x]);
        }
    }
}

proof fn lemma_extends_refl<K, V>(m: Map<K, Seq<V>>)
    ensures
        histories_extend(m, m),
{
    assert forall|x: K| #[trigger] m.contains_key(x) implies m.contains_key(x) && m[x].is_prefix_of(m[x]) by {
        assert(m[x].take(m[x].len() as int) =~= m[x]);
    }
}

proof fn lemma_append_extends<K, V>(m: Map<K, Seq<V>>, k: K, v: V)
    ensures
        histories_extend(m, append_at(m, k, v)),
{
    assert forall|x: K| #[trigger] m.contains_key(x) implies append_at(m, k, v).contains_key(x) && m[x].is_prefix_of(append_at(m, k, v)[x]) by {
        if x == k {
            assert(append_at(m, k, v)[x].take(m[x].len() as int) =~= m[x]);
        } else {
            assert(m[x].take(m[x].len() as int) =~= m[x]);
        }
    }
}

proof fn lemma_extends_trans<K, V>(a: Map<K, Seq<V>>, b: Map<K, Seq<V>>, c: Map<K, Seq<V>>)
    requires
        histories_extend(a, b),
        histories_extend(b, c),
    ensures
        histories_extend(a, c),
{
    assert forall|x: K| #[trigger] a.contains_key(x) implies c.contains_key(x) && a[x].is_prefix_of(c[x]) by {
        assert(b.contains_key(x));
        assert(c[x].take(a[x].len() as int) =~= b[x].take(a[x].len() as int));
    }
}

/// The event and process histories are append-only: whether a receipt is
/// accepted or refused, every history that existed before is a prefix of the
/// same history afterwards.
pub proof fn law_histories_append_only(s: SchedulerModel, prop: ProposalModel, rec: ReceiptModel, completes: bool)
    ensures
        histories_extend(s.event_chunks, after_satisfy(s, prop, rec, completes).event_chunks),
        histories_extend(s.process_chunks, after_satisfy(s, prop, rec, completes).process_chunks),
{
    let ev = assign_event(s, prop, rec.in_event_seq).1;
    let q = prepared(s, prop, rec);
    lemma_with_key_extends(s.event_chunks, ev);
    lemma_with_key_extends(s.process_chunks, prop.process);
    lemma_extends_refl(s.event_chunks);
    lemma_extends_refl(s.process_chunks);
    if satisfy_error(s, prop, rec) is None {
        lemma_append_extends(q.event_chunks, ev, rec);
        lemma_append_extends(q.process_chunks, prop.process, rec);
        assert(append_at(q.event_chunks, ev, rec) == q.event_chunks.insert(ev, seq_at(q.event_chunks, ev).push(rec)));
        lemma_extends_trans(s.event_chunks, q.event_chunks, append_at(q.event_chunks, ev, rec));
        lemma_extends_trans(s.process_chunks, q.process_chunks, append_at(q.process_chunks, prop.process, rec));
    }
}

/// An accepted receipt lands exactly where it claims: at position
/// `in_log_seq` of its process's history and `in_event_seq` of its event's
/// history, each of which it ends.
pub proof fn law_receipt_lands_in_place(s: SchedulerModel, prop: ProposalModel, rec: ReceiptModel, completes: bool)
    requires
        satisfy_error(s, prop, rec) is None,
    ensures
        ({
            let t = satisfy_commit(s, prop, rec, completes).0;
            let ev = assign_event(s, prop, rec.in_event_seq).1;
            &&& t.process_chunks[prop.process].len() == rec.in_log_seq + 1
            &&& t.process_chunks[prop.process][rec.in_log_seq as int] == rec
            &&& t.event_chunks[ev].len() == rec.in_event_seq + 1
            &&& t.event_chunks[ev][rec.in_event_seq as int] == rec
        }),
{
}

/// A finished call hands its result back: when an accepted receipt completes
/// its proposal, and the event's first receipt was made for a promise whose
/// target event has a receipt, the last new proposal carries the completing
/// receipt's return value to the target event, in the process that ran it,
/// and stands last in that process's schedule. Without such a promise the new
/// proposals are exactly the receipt's notifications.
pub proof fn law_call_result_returns_to_caller(s: SchedulerModel, prop: ProposalModel, rec: ReceiptModel)
    requires
        satisfy_error(s, prop, rec) is None,
    ensures
        ({
            let (t, out) = satisfy_commit(s, prop, rec, true);
            let ev = assign_event(s, prop, rec.in_event_seq).1;
            let root = t.event_chunks[ev][0];
            match resolve_source(t.event_chunks, root.proposal.promise) {
                Some(src) => {
                    &&& out.1.last() == resolution(src, rec.returns, prop.process)
                    &&& t.schedule[src.1].last() == resolution(src, rec.returns, prop.process)
                },
                None => out.1 == notifies_in(rec.syscalls),
            }
        }),
{
}

/// A stateless reply to a promised call goes back the same way: the only new
/// proposal carries the reply to the promise's target event and stands last
/// in the schedule of the process that ran that event.
pub proof fn law_stateless_reply_returns_to_caller(s: SchedulerModel, prop: ProposalModel, reply: Seq<u8>)
    requires
        stateless_error(s, prop) is None,
    ensures
        ({
            let (t, out) = stateless_commit(s, prop, reply);
            match resolve_source(s.event_chunks, prop.promise) {
                Some(src) => {
                    &&& out.1 == seq![resolution(src, reply, prop.process)]
                    &&& t.schedule[src.1].last() == resolution(src, reply, prop.process)
                },
                None => out.1.len() == 0,
            }
        }),
{
}

/// The scheduler's invariants hold of every receipt it accepts: the
/// proposal is the first of its schedule; the receipt extends both the
/// process history and the event history exactly; a later chunk of an event
/// comes from the process of the chunk before it, which either belongs to the
/// same proposal or ends in a `Call`; and a `Call` can only be the last
/// syscall.
pub proof fn law_accepted_receipts_keep_the_invariants(s: SchedulerModel, prop: ProposalModel, rec: ReceiptModel)
    requires
        satisfy_error(s, prop, rec) is None,
    ensures
        ({
            let q = prepared(s, prop, rec);
            let ev = assign_event(s, prop, rec.in_event_seq).1;
            let ech = seq_at(q.event_chunks, ev);
            &&& seq_at(s.schedule, prop.process).len() > 0
            &&& seq_at(s.schedule, prop.process)[0] == prop
            &&& rec.in_log_seq == seq_at(s.process_chunks, prop.process).len()
            &&& rec.in_event_seq == ech.len()
            &&& rec.in_event_seq > 0 ==> ech[rec.in_event_seq - 1].proposal.process == rec.proposal.process
            &&& rec.in_event_seq > 0 ==> (ech[rec.in_event_seq - 1].proposal == prop
                || ech[rec.in_event_seq - 1].syscalls.last() is Call)
            &&& forall|i: int| 0 <= i < rec.syscalls.len() - 1 ==> !(#[trigger] rec.syscalls[i] is Call)
        }),
{
}

/// A refused receipt changes nothing: the schedules, the histories and the
/// event counters are all as they were.
pub proof fn law_refusal_changes_nothing(s: SchedulerModel, prop: ProposalModel, rec: ReceiptModel, completes: bool)
    requires
        satisfy_error(s, prop, rec) is Some,
    ensures
        after_satisfy(s, prop, rec, completes) == s,
{
}

/// A refused stateless reply changes nothing.
pub proof fn law_stateless_refusal_changes_nothing(s: SchedulerModel, prop: ProposalModel, reply: Seq<u8>)
    requires
        stateless_error(s, prop) is Some,
    ensures
        after_stateless(s, prop, reply) == s,
{
}

/// Event counters never go backwards: each counter after a receipt is at
/// least what it was.
pub proof fn law_event_counters_monotone(s: SchedulerModel, prop: ProposalModel, rec: ReceiptModel, completes: bool, p: ProcessIdModel)
    requires
        prop.event is None && rec.in_event_seq == 0 ==> counter_of(s.event_counter, prop.process) < u64::MAX,
    ensures
        counter_of(s.event_counter, p) <= counter_of(after_satisfy(s, prop, rec, completes).event_counter, p),
{
}

/// An accepted receipt makes at most one `Call`, and only as its last syscall.
pub proof fn law_single_trailing_call(s: SchedulerModel, prop: ProposalModel, rec: ReceiptModel)
    requires
        satisfy_error(s, prop, rec) is None,
    ensures
        calls_in(rec.syscalls).len() <= 1,
        forall|i: int| 0 <= i < rec.syscalls.len() - 1 ==> !(#[trigger] rec.syscalls[i] is Call),
{
}

/// Schedules are first-in first-out: appending a proposal never changes which
/// proposal is first in a non-empty schedule, and an empty schedule's first
/// proposal becomes the one appended.
pub proof fn law_fifo_head(m: Map<ProcessIdModel, Seq<ProposalModel>>, p: ProcessIdModel, x: ProposalModel)
    ensures
        seq_at(m, p).len() > 0 ==> seq_at(append_at(m, p, x), p)[0] == seq_at(m, p)[0],
        seq_at(m, p).len() == 0 ==> seq_at(append_at(m, p, x), p)[0] == x,
        seq_at(append_at(m, p, x), p) == seq_at(m, p).push(x),
{
}

/// One change offered to the log: a chunk or an event.
pub enum LogStep {
    AddChunk(ChunkModel),
    AddEvent(EventModel),
}

/// The log after a step, accepted or not (as `add_chunk` and `add_event` say).
pub open spec fn log_step(l: LogModel, step: LogStep) -> LogModel {
    match step {
        LogStep::AddChunk(c) => match chunk_error(l, c) {
            Some(_) => chunk_prepared(l, c),
            None => chunk_commit(l, c),
        },
        LogStep::AddEvent(e) => if e.id.seq == seq_at(l.events, e.id.proc).len() {
            event_commit(l, e)
        } else {
            LogModel { events: with_key(l.events, e.id.proc), ..l }
        },
    }
}

/// The log after the steps, in order.
pub open spec fn log_steps(l: LogModel, steps: Seq<LogStep>) -> LogModel
    decreases steps.len(),
{
    if steps.len() == 0 {
        l
    } else {
        log_step(log_steps(l, steps.drop_last()), steps.last())
    }
}

/// Event `id` has completed with the record `ev`, and is not running.
pub open spec fn completed_as(l: LogModel, id: LogEventModel, ev: EventModel) -> bool {
    &&& id.seq < seq_at(l.events, id.proc).len()
    &&& seq_at(l.events, id.proc)[id.seq as int] == ev
    &&& ev.status is Completed
    &&& !l.running.contains(id)
}

proof fn lemma_completed_step(l: LogModel, id: LogEventModel, ev: EventModel, step: LogStep)
    requires
        completed_as(l, id, ev),
    ensures
        completed_as(log_step(l, step), id, ev),
        step matches LogStep::AddChunk(c) ==> c.event_id == id ==> chunk_error(l, c) is Some
            && seq_at(log_step(l, step).chunks, id.proc) == seq_at(l.chunks, id.proc)
            && seq_at(log_step(l, step).event_chunks, id) == seq_at(l.event_chunks, id),
{
    let l2 = log_step(l, step);
    match step {
        LogStep::AddChunk(c) => {
            if chunk_error(l, c) is None {
                assert(c.event_id != id);
                let p = c.event_id.proc;
                let seq = c.event_id.seq;
                let r1 = if c.chunk_seq == 0 { put_running(l.running, c.event_id) } else { l.running };
                crate::log::lemma_running_members(l.running, c.event_id, id);
                crate::log::lemma_running_members(r1, c.event_id, id);
                assert(!r1.contains(id));
                if p == id.proc {
                    assert(seq != id.seq);
                }
            }
        },
        LogStep::AddEvent(e) => {
            if e.id.seq == seq_at(l.events, e.id.proc).len() {
                assert(e.id != id);
                crate::log::lemma_running_members(l.running, e.id, id);
                if e.id.proc == id.proc {
                    assert(seq_at(l2.events, id.proc)[id.seq as int] == seq_at(l.events, id.proc)[id.seq as int]);
                }
            }
        },
    }
}

/// Every entry of every event's chunk list points at a chunk of that very
/// event in its process's log.
pub open spec fn chunk_lists_sound(l: LogModel) -> bool {
    forall|e: LogEventModel, j: int| 0 <= j < seq_at(l.event_chunks, e).len() ==>
        #[trigger] seq_at(l.event_chunks, e)[j] < seq_at(l.chunks, e.proc).len()
        && seq_at(l.chunks, e.proc)[seq_at(l.event_chunks, e)[j] as int].event_id == e
}

/// Chunk `c` is recorded as chunk `c.chunk_seq` of its event.
pub open spec fn chunk_recorded(l: LogModel, c: ChunkModel) -> bool {
    let ec = seq_at(l.event_chunks, c.event_id);
    let cs = seq_at(l.chunks, c.event_id.proc);
    &&& c.chunk_seq < ec.len()
    &&& ec[c.chunk_seq as int] == c.log_seq
    &&& c.log_seq < cs.len()
    &&& cs[c.log_seq as int] == c
}

proof fn lemma_prefix_at<K, V>(m: Map<K, Seq<V>>, k: K, x: V, q: K, j: int)
    requires
        0 <= j < seq_at(m, q).len(),
    ensures
        seq_at(append_at(m, k, x), q).len() >= seq_at(m, q).len(),
        seq_at(append_at(m, k, x), q)[j] == seq_at(m, q)[j],
        seq_at(with_key(m, k), q) == seq_at(m, q),
{
}

proof fn lemma_step_keeps_chunks(l: LogModel, step: LogStep)
    ensures
        forall|q: LogEventModel, j: int| 0 <= j < seq_at(l.event_chunks, q).len() ==>
            seq_at(log_step(l, step).event_chunks, q).len() >= seq_at(l.event_chunks, q).len()
            && #[trigger] seq_at(log_step(l, step).event_chunks, q)[j] == seq_at(l.event_chunks, q)[j],
        forall|p: crate::log::LogProcessModel, j: int| 0 <= j < seq_at(l.chunks, p).len() ==>
            seq_at(log_step(l, step).chunks, p).len() >= seq_at(l.chunks, p).len()
            && #[trigger] seq_at(log_step(l, step).chunks, p)[j] == seq_at(l.chunks, p)[j],
{
    match step {
        LogStep::AddChunk(c) => {
            if chunk_error(l, c) is None {
                assert forall|q: LogEventModel, j: int| 0 <= j < seq_at(l.event_chunks, q).len() implies
                    seq_at(log_step(l, step).event_chunks, q).len() >= seq_at(l.event_chunks, q).len()
                    && #[trigger] seq_at(log_step(l, step).event_chunks, q)[j] == seq_at(l.event_chunks, q)[j] by {
                    lemma_prefix_at(l.event_chunks, c.event_id, c.log_seq, q, j);
                }
                assert forall|p: crate::log::LogProcessModel, j: int| 0 <= j < seq_at(l.chunks, p).len() implies
                    seq_at(log_step(l, step).chunks, p).len() >= seq_at(l.chunks, p).len()
                    && #[trigger] seq_at(log_step(l, step).chunks, p)[j] == seq_at(l.chunks, p)[j] by {
                    lemma_prefix_at(l.chunks, c.event_id.proc, c, p, j);
                }
            } else {
                assert forall|q: LogEventModel| #[trigger] seq_at(log_step(l, step).event_chunks, q) == seq_at(l.event_chunks, q) by {
                }
                assert forall|p: crate::log::LogProcessModel| #[trigger] seq_at(log_step(l, step).chunks, p) == seq_at(l.chunks, p) by {
                }
            }
        },
        LogStep::AddEvent(e) => {},
    }
}

/// An accepted chunk is found again: right after `add_chunk` accepts `c`,
/// and after any chunks and events offered later, looking up chunk
/// `c.chunk_seq` of its event gives back `c`.
pub proof fn law_chunk_found_by_event_and_number(l: LogModel, c: ChunkModel, steps: Seq<LogStep>)
    requires
        chunk_error(l, c) is None,
    ensures
        crate::log::chunk_in_event(log_steps(chunk_commit(l, c), steps), c.event_id, c.chunk_seq) == Some(c),
    decreases steps.len(),
{
    lemma_chunk_recorded_steps(l, c, steps);
    let l2 = log_steps(chunk_commit(l, c), steps);
    assert(seq_at(l2.event_chunks, c.event_id).len() > 0);
    assert(seq_at(l2.chunks, c.event_id.proc).len() > 0);
}

proof fn lemma_chunk_recorded_steps(l: LogModel, c: ChunkModel, steps: Seq<LogStep>)
    requires
        chunk_error(l, c) is None,
    ensures
        chunk_recorded(log_steps(chunk_commit(l, c), steps), c),
    decreases steps.len(),
{
    if steps.len() == 0 {
        let l2 = chunk_commit(l, c);
        assert(seq_at(l2.event_chunks, c.event_id) == seq_at(l.event_chunks, c.event_id).push(c.log_seq));
        assert(seq_at(l2.chunks, c.event_id.proc) == seq_at(l.chunks, c.event_id.proc).push(c));
    } else {
        lemma_chunk_recorded_steps(l, c, steps.drop_last());
        let l1 = log_steps(chunk_commit(l, c), steps.drop_last());
        lemma_step_keeps_chunks(l1, steps.last());
        let l2 = log_step(l1, steps.last());
        assert(seq_at(l2.event_chunks, c.event_id)[c.chunk_seq as int] == seq_at(l1.event_chunks, c.event_id)[c.chunk_seq as int]);
        assert(seq_at(l2.chunks, c.event_id.proc)[c.log_seq as int] == seq_at(l1.chunks, c.event_id.proc)[c.log_seq as int]);
    }
}

/// Every step keeps each event's chunk list pointing at chunks of that event.
pub proof fn law_chunk_lists_stay_sound(l: LogModel, step: LogStep)
    requires
        chunk_lists_sound(l),
    ensures
        chunk_lists_sound(log_step(l, step)),
{
    let l2 = log_step(l, step);
    lemma_step_keeps_chunks(l, step);
    assert forall|e: LogEventModel, j: int| 0 <= j < seq_at(l2.event_chunks, e).len() implies
        #[trigger] seq_at(l2.event_chunks, e)[j] < seq_at(l2.chunks, e.proc).len()
        && seq_at(l2.chunks, e.proc)[seq_at(l2.event_chunks, e)[j] as int].event_id == e by {
        if j < seq_at(l.event_chunks, e).len() {
            let v = seq_at(l.event_chunks, e)[j];
            assert(seq_at(l2.event_chunks, e)[j] == v);
            assert(seq_at(l2.chunks, e.proc)[v as int] == seq_at(l.chunks, e.proc)[v as int]);
        } else {
            match step {
                LogStep::AddChunk(c) => {
                    assert(chunk_error(l, c) is None);
                    assert(e == c.event_id);
                    assert(seq_at(l2.event_chunks, e) == seq_at(l.event_chunks, e).push(c.log_seq));
                    assert(seq_at(l2.chunks, e.proc) == seq_at(l.chunks, e.proc).push(c));
                },
                LogStep::AddEvent(_) => {},
            }
        }
    }
}

/// The empty log is sound, and so is every log reached from a sound one.
pub proof fn law_chunk_lists_sound_after_steps(l: LogModel, steps: Seq<LogStep>)
    requires
        chunk_lists_sound(l),
    ensures
        chunk_lists_sound(log_steps(l, steps)),
        chunk_lists_sound(LogModel {
            chunks: Map::empty(),
            events: Map::empty(),
            event_chunks: Map::empty(),
            queue: Map::empty(),
            running: Seq::empty(),
        }),
    decreases steps.len(),
{
    if steps.len() > 0 {
        law_chunk_lists_sound_after_steps(l, steps.drop_last());
        law_chunk_lists_stay_sound(log_steps(l, steps.drop_last()), steps.last());
    }
}

proof fn lemma_selected_from(cs: Seq<ChunkModel>, idx: Seq<u64>, i: int)
    requires
        0 <= i < crate::log::select_chunks(cs, idx).len(),
    ensures
        exists|j: int| 0 <= j < idx.len() && idx[j] < cs.len()
            && cs[idx[j] as int] == #[trigger] crate::log::select_chunks(cs, idx)[i],
    decreases idx.len(),
{
    let t = idx.drop_last();
    let r = crate::log::select_chunks(cs, t);
    if i < r.len() {
        lemma_selected_from(cs, t, i);
        let j = choose|j: int| 0 <= j < t.len() && t[j] < cs.len() && cs[t[j] as int] == #[trigger] r[i];
        assert(idx[j] == t[j]);
        if idx.last() < cs.len() {
            assert(crate::log::select_chunks(cs, idx)[i] == r[i]);
        }
    } else {
        assert(idx[idx.len() - 1] == idx.last());
    }
}

/// The chunks listed for an event are that event's chunks: in a sound log
/// every chunk `get_chunks_in_event(e)` returns has `e` as its event, and so
/// has the chunk `get_chunk_in_event(e, n)` returns.
pub proof fn law_listed_chunks_belong_to_event(l: LogModel, e: LogEventModel, n: u64)
    requires
        chunk_lists_sound(l),
        l.event_chunks.contains_key(e),
        l.chunks.contains_key(e.proc),
    ensures
        forall|i: int| 0 <= i < crate::log::select_chunks(l.chunks[e.proc], l.event_chunks[e]).len()
            ==> (#[trigger] crate::log::select_chunks(l.chunks[e.proc], l.event_chunks[e])[i]).event_id == e,
        crate::log::chunk_in_event(l, e, n) matches Some(x) ==> x.event_id == e,
{
    let cs = l.chunks[e.proc];
    let idx = l.event_chunks[e];
    assert(seq_at(l.chunks, e.proc) == cs);
    assert(seq_at(l.event_chunks, e) == idx);
    assert forall|i: int| 0 <= i < crate::log::select_chunks(cs, idx).len()
        implies (#[trigger] crate::log::select_chunks(cs, idx)[i]).event_id == e by {
        lemma_selected_from(cs, idx, i);
        let j = choose|j: int| 0 <= j < idx.len() && idx[j] < cs.len() && cs[idx[j] as int] == #[trigger] crate::log::select_chunks(cs, idx)[i];
        assert(seq_at(l.event_chunks, e)[j] == idx[j]);
    }
    if n < idx.len() {
        assert(seq_at(l.event_chunks, e)[n as int] == idx[n as int]);
    }
}

/// The chunk list of an event ends with its last accepted chunk: right after
/// `add_chunk` accepts `c`, `get_chunks_in_event(c.event_id)` ends with `c`.
pub proof fn law_event_chunks_end_with_accepted(l: LogModel, c: ChunkModel)
    requires
        chunk_error(l, c) is None,
    ensures
        ({
            let l2 = chunk_commit(l, c);
            &&& l2.event_chunks.contains_key(c.event_id)
            &&& l2.chunks.contains_key(c.event_id.proc)
            &&& crate::log::select_chunks(l2.chunks[c.event_id.proc], l2.event_chunks[c.event_id]).len() > 0
            &&& crate::log::select_chunks(l2.chunks[c.event_id.proc], l2.event_chunks[c.event_id]).last() == c
        }),
{
    let l2 = chunk_commit(l, c);
    let idx = l2.event_chunks[c.event_id];
    let cs = l2.chunks[c.event_id.proc];
    assert(idx == seq_at(l.event_chunks, c.event_id).push(c.log_seq));
    assert(cs == seq_at(l.chunks, c.event_id.proc).push(c));
    assert(idx.last() == c.log_seq);
    assert(idx.drop_last() =~= seq_at(l.event_chunks, c.event_id));
}

/// Once an event completes it stays completed: whatever chunks and events are
/// offered afterwards, its record is unchanged, it is not running, and every
/// chunk offered for it is refused without adding anything to the logs.
pub proof fn law_completed_event_stays_completed(l: LogModel, id: LogEventModel, ev: EventModel, steps: Seq<LogStep>)
    requires
        completed_as(l, id, ev),
    ensures
        completed_as(log_steps(l, steps), id, ev),
        forall|i: int| 0 <= i < steps.len() ==> (#[trigger] steps[i] matches LogStep::AddChunk(c) ==> c.event_id == id ==> {
            let before = log_steps(l, steps.take(i));
            let after = log_steps(l, steps.take(i + 1));
            &&& chunk_error(before, c) is Some
            &&& seq_at(after.chunks, id.proc) == seq_at(before.chunks, id.proc)
            &&& seq_at(after.event_chunks, id) == seq_at(before.event_chunks, id)
        }),
    decreases steps.len(),
{
    if steps.len() > 0 {
        let t = steps.drop_last();
        law_completed_event_stays_completed(l, id, ev, t);
        lemma_completed_step(log_steps(l, t), id, ev, steps.last());
        assert forall|i: int| 0 <= i < steps.len() implies (#[trigger] steps[i] matches LogStep::AddChunk(c) ==> c.event_id == id ==> {
            let before = log_steps(l, steps.take(i));
            let after = log_steps(l, steps.take(i + 1));
            &&& chunk_error(before, c) is Some
            &&& seq_at(after.chunks, id.proc) == seq_at(before.chunks, id.proc)
            &&& seq_at(after.event_chunks, id) == seq_at(before.event_chunks, id)
        }) by {
            if i < t.len() {
                assert(steps.take(i) =~= t.take(i));
                assert(steps.take(i + 1) =~= t.take(i + 1));
                assert(steps[i] == t[i]);
            } else {
                assert(steps.take(i) =~= t);
                assert(steps.take(i + 1) =~= steps);
                assert(steps[i] == steps.last());
            }
        }
    }
}

/// An ending chunk completes its event: afterwards the event's record holds
/// the chunk's data as its result, the event is not running, and (by
/// [`law_completed_event_stays_completed`]) it stays so.
pub proof fn law_end_completes_event(l: LogModel, c: ChunkModel)
    requires
        chunk_error(l, c) is None,
        c.status is End,
    ensures
        ({
            let l2 = chunk_commit(l, c);
            let ev = seq_at(l2.events, c.event_id.proc)[c.event_id.seq as int];
            &&& completed_as(l2, c.event_id, ev)
            &&& ev.status == EventStatusModel::Completed(c.status->End_0)
        }),
{
    let id = c.event_id;
    let r1 = if c.chunk_seq == 0 { put_running(l.running, id) } else { l.running };
    crate::log::lemma_running_members(r1, id, id);
}

/// The running set holds the running events of every process: putting an
/// event in keeps every event already there (of any process) and adds it,
/// taking one out removes that event alone, and either way the set stays
/// ordered by sequence number with each event once.
pub proof fn law_running_keeps_every_process(s: Seq<crate::log::LogEventModel>, id: crate::log::LogEventModel, x: crate::log::LogEventModel)
    requires
        running_ordered(s),
    ensures
        running_ordered(put_running(s, id)),
        running_ordered(drop_running(s, id)),
        put_running(s, id).contains(id),
        s.contains(x) ==> put_running(s, id).contains(x),
        put_running(s, id).contains(x) ==> s.contains(x) || x == id,
        drop_running(s, id).contains(x) <==> (s.contains(x) && x != id),
{
    crate::log::lemma_running_ordered(s, id);
    crate::log::lemma_running_members(s, id, x);
}

proof fn lemma_lookup_contains(events: Map<crate::log::LogProcessModel, Seq<EventModel>>, ids: Seq<LogEventModel>, x: LogEventModel)
    requires
        ids.contains(x),
        events.contains_key(x.proc),
        x.seq < events[x.proc].len(),
    ensures
        crate::log::lookup_events(events, ids).contains(events[x.proc][x.seq as int]),
    decreases ids.len(),
{
    let t = ids.drop_last();
    let rest = crate::log::lookup_events(events, t);
    if ids.last() == x {
        let out = rest.push(events[x.proc][x.seq as int]);
        assert(out[out.len() - 1] == events[x.proc][x.seq as int]);
    } else {
        let j = choose|j: int| 0 <= j < ids.len() && ids[j] == x;
        assert(j < t.len());
        assert(t[j] == x);
        lemma_lookup_contains(events, t, x);
        let k = choose|k: int| 0 <= k < rest.len() && rest[k] == events[x.proc][x.seq as int];
        let id = ids.last();
        if events.contains_key(id.proc) && id.seq < events[id.proc].len() {
            assert(rest.push(events[id.proc][id.seq as int])[k] == rest[k]);
        }
    }
}

/// Running events of every process are listed: an accepted event that is
/// running joins the running set, which keeps every event already in it (of
/// any process), and the running events that `get_running_events` lists
/// include it.
pub proof fn law_running_event_is_listed(l: LogModel, e: EventModel, x: LogEventModel)
    requires
        e.id.seq == seq_at(l.events, e.id.proc).len(),
        e.status is Running,
    ensures
        ({
            let l2 = event_commit(l, e);
            &&& l2.running.contains(e.id)
            &&& l.running.contains(x) ==> l2.running.contains(x)
            &&& crate::log::lookup_events(l2.events, l2.running).contains(e)
        }),
{
    let l2 = event_commit(l, e);
    crate::log::lemma_running_members(l.running, e.id, x);
    crate::log::lemma_running_members(l.running, e.id, e.id);
    assert(l2.events[e.id.proc][e.id.seq as int] == e);
    lemma_lookup_contains(l2.events, l2.running, e.id);
}

/// Listing follows the running set: every running event whose record the
/// log holds is among the events `get_running_events` lists.
pub proof fn law_running_events_listed(l: LogModel, x: LogEventModel)
    requires
        l.running.contains(x),
        x.seq < seq_at(l.events, x.proc).len(),
    ensures
        crate::log::lookup_events(l.events, l.running).contains(seq_at(l.events, x.proc)[x.seq as int]),
{
    lemma_lookup_contains(l.events, l.running, x);
}

/// A key/value read gives back what the last write to that key wrote.
pub proof fn law_kv_read_after_write(kv: Map<ProcessIdModel, Map<Seq<char>, Seq<char>>>, p: ProcessIdModel, k: Seq<char>, v: Seq<char>)
    ensures
        kv_of(kv.insert(p, kv_of(kv, p).insert(k, v)), p).contains_key(k),
        kv_of(kv.insert(p, kv_of(kv, p).insert(k, v)), p)[k] == v,
{
}

/// A key/value write leaves every other key, of every process, as it was.
pub proof fn law_kv_write_isolated(kv: Map<ProcessIdModel, Map<Seq<char>, Seq<char>>>, p: ProcessIdModel, k: Seq<char>, v: Seq<char>, p2: ProcessIdModel, k2: Seq<char>)
    requires
        p2 != p || k2 != k,
    ensures
        kv_of(kv.insert(p, kv_of(kv, p).insert(k, v)), p2).contains_key(k2) == kv_of(kv, p2).contains_key(k2),
        kv_of(kv, p2).contains_key(k2) ==> kv_of(kv.insert(p, kv_of(kv, p).insert(k, v)), p2)[k2] == kv_of(kv, p2)[k2],
{
}

/// A process identifier reads back from its text form, provided its parts are
/// non-empty and the namespace and app hold no `/`.
pub proof fn law_process_id_round_trip(m: ProcessIdModel)
    requires
        m.namespace.len() > 0,
        m.app.len() > 0,
        m.proc.len() > 0,
        forall|i: int| 0 <= i < m.namespace.len() ==> m.namespace[i] != '/',
        forall|i: int| 0 <= i < m.app.len() ==> m.app[i] != '/',
    ensures
        parse_process_id(m.display()) == Ok::<ProcessIdModel, Seq<char>>(m),
{
    let d = m.display();
    assert(strip_caret(d) =~= m.namespace + seq!['/'] + (m.app + seq!['/'] + m.proc));
    lemma_split_once_concat(m.namespace, m.app + seq!['/'] + m.proc, '/');
    lemma_split_once_concat(m.app, m.proc, '/');
}

/// An app identifier reads back from its text form, provided its parts are
/// non-empty and the namespace holds no `/`.
pub proof fn law_app_id_round_trip(a: AppIdModel)
    requires
        a.namespace.len() > 0,
        a.app.len() > 0,
        forall|i: int| 0 <= i < a.namespace.len() ==> a.namespace[i] != '/',
    ensures
        parse_app_id(a.display()) == Ok::<AppIdModel, Seq<char>>(a),
{
    let d = a.display();
    assert(strip_caret(d) =~= a.namespace + seq!['/'] + a.app);
    lemma_split_once_concat(a.namespace, a.app, '/');
}

/// A two-part identifier addresses the app's entrypoint process.
pub proof fn law_two_parts_address_entrypoint(ns: Seq<char>, app: Seq<char>)
    requires
        ns.len() > 0,
        app.len() > 0,
        forall|i: int| 0 <= i < ns.len() ==> ns[i] != '/',
        forall|i: int| 0 <= i < app.len() ==> app[i] != '/',
    ensures
        parse_process_id(seq!['^'] + ns + seq!['/'] + app)
            == Ok::<ProcessIdModel, Seq<char>>(ProcessIdModel { namespace: ns, app, proc: entrypoint_name() }),
{
    let d = seq!['^'] + ns + seq!['/'] + app;
    assert(strip_caret(d) =~= ns + seq!['/'] + app);
    lemma_split_once_concat(ns, app, '/');
    crate::text::lemma_split_once_none_pub(app, '/');
}

/// The package store is content-addressed: once a package is added, its
/// digest reads back its bytes, adding the same bytes again is refused as a
/// duplicate, and the registered names are untouched.
pub proof fn law_package_added_once(m: PackageStoreModel, data: Seq<u8>)
    requires
        admission_error(m, data) is None,
    ensures
        added(m, data).0.packages[sha256_of(data)] == data,
        admission_error(added(m, data).0, data) == Some(StoreErrorModel::AlreadyExists),
        added(m, data).0.names == m.names,
{
}

/// Loading a package found on disk never replaces a stored one: a digest
/// already present keeps its bytes and files, and loading the same bytes
/// twice changes nothing the second time.
pub proof fn law_load_is_idempotent(m: PackageStoreModel, data: Seq<u8>)
    ensures
        m.packages.contains_key(sha256_of(data)) ==> loaded(m, data) == m,
        loaded(loaded(m, data), data) == loaded(m, data),
        loaded(m, data).packages.contains_key(sha256_of(data)),
{
}

/// A frame header announces exactly the length it was made from, for every
/// length a header can hold.
pub proof fn law_frame_header_round_trip(len: nat)
    requires
        len < 4294967296,
    ensures
        be_u32(header_of(len)) == len,
{
    lemma_header_value(len);
}

/// Removing a route undoes adding it: the table after adding `host` for
/// `pid` and removing it again is the table with it removed.
pub proof fn law_route_remove_undoes_add(s: Seq<(Seq<char>, ProcessIdModel)>, host: Seq<char>, pid: ProcessIdModel)
    ensures
        without_route(s.push((host, pid)), host, pid) == without_route(s, host, pid),
{
    assert(s.push((host, pid)).drop_last() =~= s);
}

/// Once the routes of `host` to `pid` are removed, `host` no longer leads
/// to `pid`.
pub proof fn law_removed_route_is_gone(s: Seq<(Seq<char>, ProcessIdModel)>, host: Seq<char>, pid: ProcessIdModel)
    ensures
        first_route(without_route(s, host, pid), host) != Some(pid),
{
    lemma_no_route_left(s, host, pid);
    lemma_first_route_member(without_route(s, host, pid), host);
}

proof fn lemma_no_route_left(s: Seq<(Seq<char>, ProcessIdModel)>, host: Seq<char>, pid: ProcessIdModel)
    ensures
        forall|i: int| 0 <= i < without_route(s, host, pid).len() ==> #[trigger] without_route(s, host, pid)[i] != (host, pid),
    decreases s.len(),
{
    if s.len() > 0 {
        let w = without_route(s.drop_last(), host, pid);
        lemma_no_route_left(s.drop_last(), host, pid);
        if !(s.last().0 == host && s.last().1 == pid) {
            assert forall|i: int| 0 <= i < w.push(s.last()).len() implies #[trigger] w.push(s.last())[i] != (host, pid) by {
                if i < w.len() {
                    assert(w.push(s.last())[i] == w[i]);
                }
            }
        }
    }
}

proof fn lemma_first_route_member(s: Seq<(Seq<char>, ProcessIdModel)>, host: Seq<char>)
    ensures
        first_route(s, host) matches Some(p) ==> exists|i: int| 0 <= i < s.len() && #[trigger] s[i] == (host, p),
    decreases s.len(),
{
    if s.len() > 0 && s[0].0 != host {
        lemma_first_route_member(s.drop_first(), host);
        match first_route(s, host) {
            Some(p) => {
                let i = choose|i: int| 0 <= i < s.drop_first().len() && #[trigger] s.drop_first()[i] == (host, p);
                assert(s[i + 1] == (host, p));
            },
            None => {},
        }
    } else if s.len() > 0 {
        assert(s[0] == (host, s[0].1));
    }
}

/// Registering a process is idempotent: once a registration is accepted,
/// registering the same process to the same handler again is accepted and
/// changes nothing, and a registration to another handler is refused without
/// changing anything.
pub proof fn law_register_idempotent(m: Map<ProcessIdModel, HandlerIdModel>, p: ProcessIdModel, h: HandlerIdModel, other: HandlerIdModel)
    requires
        registration(m, p, h).1,
        other != h,
    ensures
        registration(registration(m, p, h).0, p, h) == (registration(m, p, h).0, true),
        registration(registration(m, p, h).0, p, other) == (registration(m, p, h).0, false),
{
}

proof fn lemma_newer_irreflexive(a: Seq<u64>, i: int)
    requires
        i >= 0,
    ensures
        !newer_from(a, a, i),
    decreases a.len() + a.len() - i,
{
    if i < a.len() {
        lemma_newer_irreflexive(a, i + 1);
    }
}

proof fn lemma_newer_asymmetric(a: Seq<u64>, b: Seq<u64>, i: int)
    requires
        i >= 0,
    ensures
        newer_from(a, b, i) ==> !newer_from(b, a, i),
    decreases a.len() + b.len() - i,
{
    if !(i >= a.len() && i >= b.len()) && part_at(a, i) == part_at(b, i) {
        lemma_newer_asymmetric(a, b, i + 1);
    }
}

proof fn lemma_newer_transitive(a: Seq<u64>, b: Seq<u64>, c: Seq<u64>, i: int)
    requires
        i >= 0,
    ensures
        newer_from(a, b, i) && newer_from(b, c, i) ==> newer_from(a, c, i),
    decreases a.len() + b.len() + c.len() - i,
{
    if i < a.len() || i < b.len() || i < c.len() {
        lemma_newer_transitive(a, b, c, i + 1);
    }
}

/// Versions compare as a strict order: no version is newer than itself, of
/// two versions at most one is newer than the other, and a version newer than
/// one that is newer than a third is newer than the third. So a package only
/// ever takes a name over from an older version.
pub proof fn law_versions_strict_order(a: Seq<u64>, b: Seq<u64>, c: Seq<u64>)
    ensures
        !newer(a, a),
        newer(a, b) ==> !newer(b, a),
        newer(a, b) && newer(b, c) ==> newer(a, c),
{
    lemma_newer_irreflexive(a, 0);
    lemma_newer_asymmetric(a, b, 0);
    lemma_newer_transitive(a, b, c, 0);
}

/// A registered name is never handed to a package without a version, nor
/// to one whose version is the same as or older than the one recorded for
/// the name.
pub proof fn law_name_never_downgraded(m: PackageStoreModel, name: Seq<char>, version: Option<Seq<u64>>)
    requires
        m.names.contains_key(name),
        version is None || (recorded_version(m, name) is Some && !newer(version->0, recorded_version(m, name)->0)),
    ensures
        !takes_name(m, name, version),
{
}

/// On a line without quote characters the tokenizer splits as
/// `str::split_whitespace` does: the non-empty runs of non-whitespace, in order.
pub proof fn law_quote_free_splits_on_whitespace(cs: Seq<char>)
    requires
        forall|n: int| 0 <= n < cs.len() ==> cs[n] != '\'' && cs[n] != '"',
    ensures
        tokens_from(cs, 0) == split_whitespace(cs),
{
    lemma_tokens_split(cs, 0);
    assert(cs.skip(0) =~= cs);
}


/// A saved copy in step with the scheduler stays in step when a proposal is
/// added: the one write of `add_proposal` turns the image of the state before
/// into the image of the state after.
pub proof fn law_saved_copy_follows_added_proposals(s: SchedulerModel, prop: ProposalModel)
    requires
        seq_at(s.schedule, prop.process).len() < u64::MAX,
    ensures
        replay(saved_image(s), seq![PersistOpModel::SaveProposal {
            process: prop.process,
            position: seq_at(s.schedule, prop.process).len() as u64,
            proposal: prop,
        }]) == saved_image(SchedulerModel { schedule: append_at(s.schedule, prop.process, prop), ..s }),
{
    let n = seq_at(s.schedule, prop.process).len();
    let op = PersistOpModel::SaveProposal { process: prop.process, position: n as u64, proposal: prop };
    lemma_replay_one(saved_image(s), op);
    assert(indexed(s.schedule).insert((prop.process, n as u64), prop) =~= indexed(append_at(s.schedule, prop.process, prop)));
}

/// A saved copy in step with the scheduler stays in step when an event
/// counter is set and saved.
pub proof fn law_saved_copy_follows_counters(s: SchedulerModel, p: ProcessIdModel, n: u64)
    ensures
        replay(saved_image(s), seq![PersistOpModel::SaveEventCounter { process: p, counter: n }])
            == saved_image(SchedulerModel { event_counter: s.event_counter.insert(p, n), ..s }),
{
    lemma_replay_one(saved_image(s), PersistOpModel::SaveEventCounter { process: p, counter: n });
}

/// Durability of receipts: when a receipt is accepted, the writes the saving
/// path makes (the counter, then [`satisfy_plan`]) turn a saved copy in step
/// with the state before into one in step with the state after, so replaying
/// what was written gives back the scheduler's state.
pub proof fn law_saved_copy_follows_receipts(s: SchedulerModel, prop: ProposalModel, rec: ReceiptModel, completes: bool)
    requires
        satisfy_error(s, prop, rec) is None,
        histories_fit(satisfy_commit(s, prop, rec, completes).0.schedule),
    ensures
        ({
            let c = satisfy_commit(s, prop, rec, completes);
            replay(saved_image(s), counter_plan(c.0, prop)
                + satisfy_plan(c.0, prop.process, c.1.0.event, rec.in_event_seq, rec.in_log_seq, completes, c.1.1))
                == saved_image(c.0)
        }),
{
    let c = satisfy_commit(s, prop, rec, completes);
    let t = c.0;
    let news = c.1.1;
    let p = prop.process;
    let ev = assign_event(s, prop, rec.in_event_seq).1;
    let q = prepared(s, prop, rec);
    let sched1 = if completes { q.schedule.insert(p, seq_at(q.schedule, p).drop_first()) } else { q.schedule };
    let notes = notifies_in(rec.syscalls);
    // the schedule after is the one before with the new proposals enqueued
    assert(t.schedule == enqueue_all(sched1, news)) by {
        let ec1 = q.event_chunks.insert(ev, seq_at(q.event_chunks, ev).push(rec));
        let root = if rec.in_event_seq == 0 { rec } else { seq_at(q.event_chunks, ev)[0] };
        let source = resolve_source(ec1, root.proposal.promise);
        if completes && source is Some {
            let rp = resolution(source->0, rec.returns, p);
            assert(notes.push(rp).drop_last() =~= notes);
            assert(notes.push(rp).last() == rp);
        }
    }
    let img0 = saved_image(s);
    let cp = counter_plan(t, prop);
    let ec = seq_at(t.event_chunks, ev);
    let pc = seq_at(t.process_chunks, p);
    let a = seq![PersistOpModel::SaveEventReceipt { event: ev, chunk_seq: rec.in_event_seq, receipt: rec }];
    let b = seq![PersistOpModel::SaveProcessReceipt { process: p, chunk_seq: rec.in_log_seq, receipt: rec }];
    let cc = if completes { resave_block(p, seq_at(t.schedule, p)) } else { Seq::empty() };
    let tr = target_resaves(t.schedule, news);
    assert(ec.len() > 0 && ec.last() == rec);
    assert(pc.len() > 0 && pc.last() == rec);
    assert(satisfy_plan(t, p, c.1.0.event, rec.in_event_seq, rec.in_log_seq, completes, news) == a + b + cc + tr);
    assert(cp + (a + b + cc + tr) =~= (((cp + a) + b) + cc) + tr);
    lemma_replay_concat(img0, ((cp + a) + b) + cc, tr);
    lemma_replay_concat(img0, (cp + a) + b, cc);
    lemma_replay_concat(img0, cp + a, b);
    lemma_replay_concat(img0, cp, a);
    // the counter
    let img1 = replay(img0, cp);
    assert(img1 == (SavedModel { counters: t.event_counter, ..img0 })) by {
        if prop.event is None {
            lemma_replay_one(img0, cp[0]);
            assert(cp =~= seq![cp[0]]);
            assert(s.event_counter.insert(p, t.event_counter[p]) =~= t.event_counter);
        } else {
            assert(cp =~= Seq::<PersistOpModel>::empty());
        }
    }
    // the receipts
    let img2 = replay(img1, a);
    lemma_replay_one(img1, a[0]);
    assert(a =~= seq![a[0]]);
    assert(indexed(s.event_chunks).insert((ev, rec.in_event_seq), rec) =~= indexed(t.event_chunks));
    let img3 = replay(img2, b);
    lemma_replay_one(img2, b[0]);
    assert(b =~= seq![b[0]]);
    assert(indexed(s.process_chunks).insert((p, rec.in_log_seq), rec) =~= indexed(t.process_chunks));
    // the schedules
    let img4 = replay(img3, cc);
    assert(img4.proposals == (if completes { put_schedule(indexed(s.schedule), p, seq_at(t.schedule, p)) } else { indexed(s.schedule) })
        && img4.counters == t.event_counter && img4.event_chunks == indexed(t.event_chunks)
        && img4.process_chunks == indexed(t.process_chunks)) by {
        if completes {
            lemma_replay_block(img3, p, seq_at(t.schedule, p));
        }
    }
    lemma_replay_targets(img4, t.schedule, news);
    assert forall|k: (ProcessIdModel, u64)| !is_target(news, k.0) && !(completes && k.0 == p)
        implies #[trigger] seq_at(t.schedule, k.0) == seq_at(s.schedule, k.0) by {
        lemma_enqueue_untouched(sched1, news, k.0);
    }
    assert(put_targets(img4.proposals, t.schedule, news) =~= indexed(t.schedule));
}

/// Durability of stateless replies: the writes after an accepted stateless
/// reply (see [`stateless_plan`]) turn a saved copy in step with the state
/// before into one in step with the state after.
pub proof fn law_saved_copy_follows_stateless_replies(s: SchedulerModel, prop: ProposalModel, reply: Seq<u8>)
    requires
        stateless_error(s, prop) is None,
        histories_fit(stateless_commit(s, prop, reply).0.schedule),
    ensures
        ({
            let c = stateless_commit(s, prop, reply);
            replay(saved_image(s), stateless_plan(c.0, prop.process, c.1.1)) == saved_image(c.0)
        }),
{
    let c = stateless_commit(s, prop, reply);
    let t = c.0;
    let news = c.1.1;
    let p = prop.process;
    let sched1 = s.schedule.insert(p, s.schedule[p].drop_first());
    assert(t.schedule == enqueue_all(sched1, news)) by {
        let source = resolve_source(s.event_chunks, prop.promise);
        assert(enqueue_all(sched1, Seq::<ProposalModel>::empty()) == sched1);
        if source is Some {
            let rp = resolution(source->0, reply, p);
            assert(seq![rp].drop_last() =~= Seq::<ProposalModel>::empty());
            assert(seq![rp].last() == rp);
        } else {
            assert(news =~= Seq::<ProposalModel>::empty());
        }
    }
    let img0 = saved_image(s);
    let blk = resave_block(p, seq_at(t.schedule, p));
    lemma_replay_concat(img0, blk, target_resaves(t.schedule, news));
    lemma_replay_block(img0, p, seq_at(t.schedule, p));
    let img1 = replay(img0, blk);
    lemma_replay_targets(img1, t.schedule, news);
    assert forall|k: (ProcessIdModel, u64)| !is_target(news, k.0) && k.0 != p
        implies #[trigger] seq_at(t.schedule, k.0) == seq_at(s.schedule, k.0) by {
        lemma_enqueue_untouched(sched1, news, k.0);
    }
    assert(put_targets(img1.proposals, t.schedule, news) =~= indexed(t.schedule));
}


/// A saved copy determines the state it is in step with: two states with the
/// same saved image hold the same schedules, the same event and process
/// histories, and the same event counters (empty entries aside).
pub proof fn law_saved_copy_determines_state(s1: SchedulerModel, s2: SchedulerModel, q: ProcessIdModel, e: crate::types::EventIdModel)
    requires
        saved_image(s1) == saved_image(s2),
        histories_fit(s2.schedule),
        histories_fit(s2.event_chunks),
        histories_fit(s2.process_chunks),
    ensures
        seq_at(s1.schedule, q) == seq_at(s2.schedule, q),
        seq_at(s1.event_chunks, e) == seq_at(s2.event_chunks, e),
        seq_at(s1.process_chunks, q) == seq_at(s2.process_chunks, q),
        s1.event_counter == s2.event_counter,
{
    lemma_indexed_determines(s1.schedule, s2.schedule, q);
    lemma_indexed_determines(s1.event_chunks, s2.event_chunks, e);
    lemma_indexed_determines(s1.process_chunks, s2.process_chunks, q);
}

/// Recovery after a crash: rows that list a saved copy in step with state
/// `s` (each kind per key in position order) rebuild, through
/// [`restored`], every schedule, every event and process history and every
/// event counter of `s` (empty entries aside).
pub proof fn law_restore_gives_back_state(
    s: SchedulerModel,
    counters: Seq<(ProcessIdModel, u64)>,
    proposals: Seq<(ProcessIdModel, u64, ProposalModel)>,
    event_receipts: Seq<(crate::types::EventIdModel, u64, ReceiptModel)>,
    process_receipts: Seq<(ProcessIdModel, u64, ReceiptModel)>,
    q: ProcessIdModel,
    e: crate::types::EventIdModel,
)
    requires
        rows_in_order(proposals),
        rows_in_order(event_receipts),
        rows_in_order(process_receipts),
        saved_image(s) == (SavedModel {
            proposals: rows_image(proposals),
            event_chunks: rows_image(event_receipts),
            process_chunks: rows_image(process_receipts),
            counters: counters_of(counters),
        }),
        histories_fit(s.schedule),
        histories_fit(s.event_chunks),
        histories_fit(s.process_chunks),
    ensures
        ({
            let t = restored(counters, proposals, event_receipts, process_receipts);
            &&& seq_at(t.schedule, q) == seq_at(s.schedule, q)
            &&& seq_at(t.event_chunks, e) == seq_at(s.event_chunks, e)
            &&& seq_at(t.process_chunks, q) == seq_at(s.process_chunks, q)
            &&& t.event_counter == s.event_counter
        }),
{
    lemma_rows_indexed(proposals);
    lemma_rows_indexed(event_receipts);
    lemma_rows_indexed(process_receipts);
    let t = restored(counters, proposals, event_receipts, process_receipts);
    lemma_indexed_determines(t.schedule, s.schedule, q);
    lemma_indexed_determines(t.event_chunks, s.event_chunks, e);
    lemma_indexed_determines(t.process_chunks, s.process_chunks, q);
}


proof fn lemma_first_true(exists: Seq<bool>, i: int)
    requires
        0 <= i < exists.len(),
        exists[i],
        forall|j: int| 0 <= j < i ==> !exists[j],
    ensures
        crate::config::exists_index(exists) == i,
    decreases i,
{
    if i > 0 {
        let t = exists.drop_first();
        assert forall|j: int| 0 <= j < i - 1 implies !t[j] by {
            assert(t[j] == exists[j + 1]);
        }
        assert(t[i - 1] == exists[i]);
        lemma_first_true(t, i - 1);
    }
}

proof fn lemma_none_true(exists: Seq<bool>)
    requires
        forall|j: int| 0 <= j < exists.len() ==> !exists[j],
    ensures
        crate::config::exists_index(exists) == exists.len(),
    decreases exists.len(),
{
    if exists.len() > 0 {
        let t = exists.drop_first();
        assert forall|j: int| 0 <= j < t.len() implies !t[j] by {
            assert(t[j] == exists[j + 1]);
        }
        lemma_none_true(t);
    }
}

/// The config file read is the one named on the command line; without one,
/// the first candidate that exists (so an existing first candidate is always
/// chosen); and when none exists, the first candidate.
pub proof fn law_first_existing_config_chosen(cli_config: Option<Seq<char>>, candidates: Seq<Seq<char>>, exists: Seq<bool>, i: int)
    requires
        candidates.len() == exists.len(),
        candidates.len() > 0,
    ensures
        cli_config matches Some(c) ==> crate::config::chosen_config(cli_config, candidates, exists) == c,
        cli_config is None && 0 <= i < exists.len() && exists[i] && (forall|j: int| 0 <= j < i ==> !exists[j])
            ==> crate::config::chosen_config(cli_config, candidates, exists) == candidates[i],
        cli_config is None && (forall|j: int| 0 <= j < exists.len() ==> !exists[j])
            ==> crate::config::chosen_config(cli_config, candidates, exists) == candidates[0],
{
    if cli_config is None && 0 <= i < exists.len() && exists[i] && (forall|j: int| 0 <= j < i ==> !exists[j]) {
        lemma_first_true(exists, i);
    }
    if cli_config is None && (forall|j: int| 0 <= j < exists.len() ==> !exists[j]) {
        lemma_none_true(exists);
    }
}

/// The entries of an archive read in its own format: gzip-compressed tar for
/// gzip data (magic `1f 8b`), plain tar otherwise.
pub open spec fn own_format_items(data: Seq<u8>) -> Seq<Result<(Seq<char>, Seq<u8>), Seq<char>>> {
    if data.len() >= 2 && data[0] == 0x1f && data[1] == 0x8b {
        crate::package::tar_gz_items(data)
    } else {
        crate::package::tar_items(data)
    }
}

proof fn lemma_strict_lenient(m: Map<Seq<char>, Seq<u8>>, items: Seq<Result<(Seq<char>, Seq<u8>), Seq<char>>>)
    requires
        forall|i: int| 0 <= i < items.len() ==> (#[trigger] items[i]) is Ok,
    ensures
        crate::package::cache_items(m, items, true) == crate::package::cache_items(m, items, false),
        crate::package::cache_items(m, items, true).1 is None,
    decreases items.len(),
{
    if items.len() > 0 {
        let t = items.drop_last();
        assert forall|i: int| 0 <= i < t.len() implies (#[trigger] t[i]) is Ok by {
            assert(t[i] == items[i]);
        }
        lemma_strict_lenient(m, t);
        assert(items[items.len() - 1] == items.last());
    }
}

/// Loading an archive not yet stored keeps it under its digest and caches
/// the entries read from it in its own format (gzip-compressed tar for gzip
/// data, plain tar otherwise); when every entry reads without error, the
/// files kept are exactly those `add_package` keeps for the same archive.
pub proof fn law_load_reads_own_format(m: PackageStoreModel, data: Seq<u8>)
    requires
        !m.packages.contains_key(sha256_of(data)),
        crate::store::tar_format(data) is Some,
    ensures
        ({
            let key = sha256_of(data);
            let l = loaded(m, data);
            &&& l.packages.contains_key(key) && l.packages[key] == data
            &&& l.files.contains_key(key)
            &&& l.files[key] == crate::package::cache_items(crate::package::files_of(m, key), own_format_items(data), false).0
            &&& (forall|i: int| 0 <= i < own_format_items(data).len() ==> (#[trigger] own_format_items(data)[i]) is Ok)
                ==> l.files[key] == added(m, data).0.files[key]
        }),
{
    reveal_strlit(".tar.gz");
    reveal_strlit(".tar");
    let key = sha256_of(data);
    assert(crate::package::archive_items(data) == own_format_items(data)) by {
        if data[0] == 0x1f && data[1] == 0x8b {
        } else {
            assert(crate::store::tar_format(data) == Some(".tar"@));
            assert(".tar"@ != ".tar.gz"@) by {
                assert(".tar"@.len() != ".tar.gz"@.len());
            }
        }
    }
    if forall|i: int| 0 <= i < own_format_items(data).len() ==> (#[trigger] own_format_items(data)[i]) is Ok {
        lemma_strict_lenient(crate::package::files_of(m, key), own_format_items(data));
    }
}

/// Adding an admitted archive keeps it under its digest and caches the
/// entries read from it in its own format (gzip-compressed tar for gzip data,
/// plain tar otherwise), stopping at the first entry that cannot be read,
/// whose error is reported.
pub proof fn law_add_reads_own_format(m: PackageStoreModel, data: Seq<u8>)
    requires
        admission_error(m, data) is None,
    ensures
        ({
            let key = sha256_of(data);
            let (a, err) = added(m, data);
            let c = crate::package::cache_items(crate::package::files_of(m, key), own_format_items(data), true);
            &&& a.packages.contains_key(key) && a.packages[key] == data
            &&& a.files.contains_key(key) && a.files[key] == c.0
            &&& err == c.1
        }),
{
    reveal_strlit(".tar.gz");
    reveal_strlit(".tar");
    assert(crate::package::archive_items(data) == own_format_items(data)) by {
        if data[0] == 0x1f && data[1] == 0x8b {
        } else {
            assert(crate::store::tar_format(data) == Some(".tar"@));
            assert(".tar"@.len() != ".tar.gz"@.len());
        }
    }
}

/// Every character of `w` preceded by a backslash.
pub open spec fn escape_all(w: Seq<char>) -> Seq<char>
    decreases w.len(),
{
    if w.len() == 0 {
        Seq::empty()
    } else {
        seq!['\\', w[0]] + escape_all(w.drop_first())
    }
}

proof fn lemma_escape_all(w: Seq<char>)
    ensures
        escape_all(w).len() == 2 * w.len(),
        forall|x: int| 0 <= x < 2 * w.len() ==> #[trigger] escape_all(w)[x] == if x % 2 == 0 { '\\' } else { w[x / 2] },
    decreases w.len(),
{
    if w.len() > 0 {
        let t = w.drop_first();
        lemma_escape_all(t);
        let e = escape_all(w);
        assert(e == seq!['\\', w[0]] + escape_all(t));
        assert forall|x: int| 0 <= x < 2 * w.len() implies #[trigger] e[x] == if x % 2 == 0 { '\\' } else { w[x / 2] } by {
            if x >= 2 {
                assert(e[x] == escape_all(t)[x - 2]);
                assert((x - 2) % 2 == x % 2);
                assert((x - 2) / 2 == x / 2 - 1);
                assert(w[x / 2] == t[x / 2 - 1]);
            }
        }
    }
}

proof fn lemma_read_escaped(cs: Seq<char>, w: Seq<char>, q: char, k: int)
    requires
        cs == seq![q] + escape_all(w) + seq![q],
        0 <= k <= w.len(),
        q != '\\',
    ensures
        crate::shell::read_quoted(cs, 1 + 2 * k, q) == (w.subrange(k, w.len() as int), cs.len() as int),
    decreases w.len() - k,
{
    lemma_escape_all(w);
    let e = escape_all(w);
    let i = 1 + 2 * k;
    assert(cs.len() == e.len() + 2);
    assert forall|x: int| 1 <= x < e.len() + 1 implies #[trigger] cs[x] == e[x - 1] by {}
    assert(cs[e.len() as int + 1] == q);
    if k == w.len() {
        assert(cs[i] == q);
        assert(w.subrange(k, w.len() as int) =~= Seq::<char>::empty());
    } else {
        assert(cs[i] == e[2 * k]);
        assert(cs[i + 1] == e[2 * k + 1]);
        assert((2 * k) % 2 == 0 && (2 * k + 1) % 2 == 1 && (2 * k + 1) / 2 == k);
        assert(cs[i] == '\\');
        assert(cs[i + 1] == w[k]);
        lemma_read_escaped(cs, w, q, k + 1);
        assert(seq![w[k]] + w.subrange(k + 1, w.len() as int) =~= w.subrange(k, w.len() as int));
    }
}

/// Inside quotes a backslash takes the next character literally: a quoted
/// token in which every character is escaped reads back as exactly those
/// characters, whatever they are (quotes and backslashes included).
pub proof fn law_escaped_quoted_token(w: Seq<char>, q: char)
    requires
        q == '"' || q == '\'',
    ensures
        tokens_from(seq![q] + escape_all(w) + seq![q], 0) == seq![w],
{
    let cs = seq![q] + escape_all(w) + seq![q];
    lemma_escape_all(w);
    assert(cs[0] == q);
    assert(crate::shell::skip_white(cs, 0) == 0);
    lemma_read_escaped(cs, w, q, 0);
    assert(w.subrange(0, w.len() as int) =~= w);
    let n = cs.len() as int;
    assert(crate::shell::skip_white(cs, n) == n);
    assert(tokens_from(cs, n) =~= Seq::<Seq<char>>::empty());
    assert(seq![w] + Seq::<Seq<char>>::empty() =~= seq![w]);
}

} // verus!
