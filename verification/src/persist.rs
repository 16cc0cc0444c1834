//! Keeping a saved copy of the scheduler in step with the one in memory: the
//! writes each scheduler operation calls for, and a model of the saved copy
//! (what replaying those writes leaves) against which they are proved.
use vstd::prelude::*;
use crate::assoc::{append_at, seq_at};
use crate::scheduler::{
    InMemoryScheduler, NextAction, Proposal, ProposalModel, Receipt, ReceiptModel, Scheduler, SchedulerError,
    SchedulerErrorModel, SchedulerModel, counter_of, enqueue_all, satisfy_commit, stateless_commit, stateless_error,
    try_satisfy_error,
};
use crate::types::{EventId, EventIdModel, ProcessId, ProcessIdModel};

verus! {

/// One write to the saved copy of the scheduler.
pub enum PersistOp {
    /// Save `proposal` at `position` of the schedule of `process`.
    SaveProposal { process: ProcessId, position: u64, proposal: Proposal },
    /// Forget every saved proposal of `process`.
    RemoveProposals { process: ProcessId },
    /// Save `receipt` as chunk `chunk_seq` of `event`.
    SaveEventReceipt { event: EventId, chunk_seq: u64, receipt: Receipt },
    /// Save `receipt` as chunk `chunk_seq` of `process`.
    SaveProcessReceipt { process: ProcessId, chunk_seq: u64, receipt: Receipt },
    /// Save the event counter of `process`.
    SaveEventCounter { process: ProcessId, counter: u64 },
}

/// The model of a [`PersistOp`].
pub enum PersistOpModel {
    SaveProposal { process: ProcessIdModel, position: u64, proposal: ProposalModel },
    RemoveProposals { process: ProcessIdModel },
    SaveEventReceipt { event: EventIdModel, chunk_seq: u64, receipt: ReceiptModel },
    SaveProcessReceipt { process: ProcessIdModel, chunk_seq: u64, receipt: ReceiptModel },
    SaveEventCounter { process: ProcessIdModel, counter: u64 },
}

impl DeepView for PersistOp {
    type V = PersistOpModel;

    open spec fn deep_view(&self) -> PersistOpModel {
        match self {
            PersistOp::SaveProposal { process, position, proposal } => PersistOpModel::SaveProposal {
                process: process@,
                position: *position,
                proposal: proposal@,
            },
            PersistOp::RemoveProposals { process } => PersistOpModel::RemoveProposals { process: process@ },
            PersistOp::SaveEventReceipt { event, chunk_seq, receipt } => PersistOpModel::SaveEventReceipt {
                event: event@,
                chunk_seq: *chunk_seq,
                receipt: receipt@,
            },
            PersistOp::SaveProcessReceipt { process, chunk_seq, receipt } => PersistOpModel::SaveProcessReceipt {
                process: process@,
                chunk_seq: *chunk_seq,
                receipt: receipt@,
            },
            PersistOp::SaveEventCounter { process, counter } => PersistOpModel::SaveEventCounter {
                process: process@,
                counter: *counter,
            },
        }
    }
}

/// The schedule of `p` saved afresh: each proposal at its position.
pub open spec fn resave_schedule(p: ProcessIdModel, sched: Seq<ProposalModel>) -> Seq<PersistOpModel> {
    Seq::new(sched.len(), |i: int| PersistOpModel::SaveProposal { process: p, position: i as u64, proposal: sched[i] })
}

/// The schedule of `p` saved afresh: every saved proposal of `p` forgotten,
/// then each proposal of `sched` saved at its position.
pub open spec fn resave_block(p: ProcessIdModel, sched: Seq<ProposalModel>) -> Seq<PersistOpModel> {
    seq![PersistOpModel::RemoveProposals { process: p }] + resave_schedule(p, sched)
}

/// The schedule of the target of each proposal in `ps`, saved afresh.
pub open spec fn target_resaves(sched: Map<ProcessIdModel, Seq<ProposalModel>>, ps: Seq<ProposalModel>) -> Seq<PersistOpModel>
    decreases ps.len(),
{
    if ps.len() == 0 {
        Seq::empty()
    } else {
        target_resaves(sched, ps.drop_last()) + resave_block(ps.last().process, seq_at(sched, ps.last().process))
    }
}

/// The writes after an accepted receipt of `process` in `event` (state `s`
/// after it): the receipt saved as chunk `event_seq` of the event and chunk
/// `log_seq` of the process; when the proposal completed, the process's
/// schedule saved afresh; and the schedule of every new proposal's target
/// saved afresh.
pub open spec fn satisfy_plan(s: SchedulerModel, process: ProcessIdModel, event: EventIdModel, event_seq: u64, log_seq: u64, completes: bool, news: Seq<ProposalModel>) -> Seq<PersistOpModel> {
    let ec = seq_at(s.event_chunks, event);
    let pc = seq_at(s.process_chunks, process);
    let a = if ec.len() > 0 {
        seq![PersistOpModel::SaveEventReceipt { event, chunk_seq: event_seq, receipt: ec.last() }]
    } else {
        Seq::empty()
    };
    let b = if pc.len() > 0 {
        seq![PersistOpModel::SaveProcessReceipt { process, chunk_seq: log_seq, receipt: pc.last() }]
    } else {
        Seq::empty()
    };
    let c = if completes { resave_block(process, seq_at(s.schedule, process)) } else { Seq::empty() };
    a + b + c + target_resaves(s.schedule, news)
}

/// The writes after an accepted stateless reply of `process` (state `s` after
/// it): the process's schedule saved afresh, and the schedule of every new
/// proposal's target.
pub open spec fn stateless_plan(s: SchedulerModel, process: ProcessIdModel, news: Seq<ProposalModel>) -> Seq<PersistOpModel> {
    resave_block(process, seq_at(s.schedule, process)) + target_resaves(s.schedule, news)
}

/// The model of the saved copy: the saved proposals by process and position,
/// the saved receipts by event (or process) and chunk number, and the saved
/// event counters.
pub struct SavedModel {
    pub proposals: Map<(ProcessIdModel, u64), ProposalModel>,
    pub event_chunks: Map<(EventIdModel, u64), ReceiptModel>,
    pub process_chunks: Map<(ProcessIdModel, u64), ReceiptModel>,
    pub counters: Map<ProcessIdModel, u64>,
}

/// The saved proposals of processes other than `p`.
pub open spec fn without_process(m: Map<(ProcessIdModel, u64), ProposalModel>, p: ProcessIdModel) -> Map<(ProcessIdModel, u64), ProposalModel> {
    Map::new(|k: (ProcessIdModel, u64)| m.contains_key(k) && k.0 != p, |k: (ProcessIdModel, u64)| m[k])
}

/// The saved copy after one write.
pub open spec fn apply_op(img: SavedModel, op: PersistOpModel) -> SavedModel {
    match op {
        PersistOpModel::SaveProposal { process, position, proposal } => SavedModel {
            proposals: img.proposals.insert((process, position), proposal),
            ..img
        },
        PersistOpModel::RemoveProposals { process } => SavedModel { proposals: without_process(img.proposals, process), ..img },
        PersistOpModel::SaveEventReceipt { event, chunk_seq, receipt } => SavedModel {
            event_chunks: img.event_chunks.insert((event, chunk_seq), receipt),
            ..img
        },
        PersistOpModel::SaveProcessReceipt { process, chunk_seq, receipt } => SavedModel {
            process_chunks: img.process_chunks.insert((process, chunk_seq), receipt),
            ..img
        },
        PersistOpModel::SaveEventCounter { process, counter } => SavedModel { counters: img.counters.insert(process, counter), ..img },
    }
}

/// The saved copy after a sequence of writes, in order.
pub open spec fn replay(img: SavedModel, ops: Seq<PersistOpModel>) -> SavedModel
    decreases ops.len(),
{
    if ops.len() == 0 {
        img
    } else {
        apply_op(replay(img, ops.drop_last()), ops.last())
    }
}

/// Each element of each sequence of `m`, keyed by the sequence's key and its position.
pub open spec fn indexed<K, V>(m: Map<K, Seq<V>>) -> Map<(K, u64), V> {
    Map::new(|k: (K, u64)| k.1 < seq_at(m, k.0).len(), |k: (K, u64)| seq_at(m, k.0)[k.1 as int])
}

/// What a saved copy in step with scheduler state `s` holds: every proposal
/// at its position, every receipt at its position in its event and in its
/// process, and every event counter.
pub open spec fn saved_image(s: SchedulerModel) -> SavedModel {
    SavedModel {
        proposals: indexed(s.schedule),
        event_chunks: indexed(s.event_chunks),
        process_chunks: indexed(s.process_chunks),
        counters: s.event_counter,
    }
}

/// No sequence of `m` is too long for its positions to be numbered in 64 bits.
pub open spec fn histories_fit<K, V>(m: Map<K, Seq<V>>) -> bool {
    forall|k: K| #[trigger] seq_at(m, k).len() <= u64::MAX
}

/// The saved proposals with those of `p` replaced by `x`, by position.
pub open spec fn put_schedule(m: Map<(ProcessIdModel, u64), ProposalModel>, p: ProcessIdModel, x: Seq<ProposalModel>) -> Map<(ProcessIdModel, u64), ProposalModel> {
    Map::new(
        |k: (ProcessIdModel, u64)| if k.0 == p { k.1 < x.len() } else { m.contains_key(k) },
        |k: (ProcessIdModel, u64)| if k.0 == p { x[k.1 as int] } else { m[k] },
    )
}

/// Some proposal of `ps` targets `q`.
pub open spec fn is_target(ps: Seq<ProposalModel>, q: ProcessIdModel) -> bool {
    exists|j: int| 0 <= j < ps.len() && (#[trigger] ps[j]).process == q
}

/// The saved proposals with those of every target of `ps` replaced by its
/// schedule in `sched`.
pub open spec fn put_targets(m: Map<(ProcessIdModel, u64), ProposalModel>, sched: Map<ProcessIdModel, Seq<ProposalModel>>, ps: Seq<ProposalModel>) -> Map<(ProcessIdModel, u64), ProposalModel> {
    Map::new(
        |k: (ProcessIdModel, u64)| if is_target(ps, k.0) { k.1 < seq_at(sched, k.0).len() } else { m.contains_key(k) },
        |k: (ProcessIdModel, u64)| if is_target(ps, k.0) { seq_at(sched, k.0)[k.1 as int] } else { m[k] },
    )
}

/// Replaying `a` then `b` is replaying `a + b`.
pub proof fn lemma_replay_concat(img: SavedModel, a: Seq<PersistOpModel>, b: Seq<PersistOpModel>)
    ensures
        replay(img, a + b) == replay(replay(img, a), b),
    decreases b.len(),
{
    if b.len() == 0 {
        assert(a + b =~= a);
    } else {
        lemma_replay_concat(img, a, b.drop_last());
        assert((a + b).drop_last() =~= a + b.drop_last());
        assert((a + b).last() == b.last());
    }
}

/// Replaying one write applies it.
pub proof fn lemma_replay_one(img: SavedModel, op: PersistOpModel)
    ensures
        replay(img, seq![op]) == apply_op(img, op),
{
    let e = Seq::<PersistOpModel>::empty();
    assert(seq![op].drop_last() =~= e);
    assert(replay(img, e) == img);
    assert(seq![op].last() == op);
}

proof fn lemma_block_prefix(img: SavedModel, p: ProcessIdModel, x: Seq<ProposalModel>, i: int)
    requires
        x.len() <= u64::MAX,
        0 <= i <= x.len(),
    ensures
        replay(img, seq![PersistOpModel::RemoveProposals { process: p }] + resave_schedule(p, x).take(i))
            == (SavedModel { proposals: put_schedule(img.proposals, p, x.take(i)), ..img }),
    decreases i,
{
    let r = PersistOpModel::RemoveProposals { process: p };
    let rs = resave_schedule(p, x);
    if i == 0 {
        assert(seq![r] + rs.take(0) =~= seq![r]);
        lemma_replay_one(img, r);
        assert(without_process(img.proposals, p) =~= put_schedule(img.proposals, p, x.take(0)));
    } else {
        lemma_block_prefix(img, p, x, i - 1);
        let ops = seq![r] + rs.take(i - 1);
        assert(seq![r] + rs.take(i) =~= ops.push(rs[i - 1]));
        assert(ops.push(rs[i - 1]).drop_last() =~= ops);
        assert(ops.push(rs[i - 1]).last() == rs[i - 1]);
        let before = put_schedule(img.proposals, p, x.take(i - 1));
        assert(((i - 1) as u64) as int == i - 1);
        assert(before.insert((p, (i - 1) as u64), x[i - 1]) =~= put_schedule(img.proposals, p, x.take(i)));
    }
}

/// Saving a schedule afresh replaces exactly the saved proposals of its process.
pub proof fn lemma_replay_block(img: SavedModel, p: ProcessIdModel, x: Seq<ProposalModel>)
    requires
        x.len() <= u64::MAX,
    ensures
        replay(img, resave_block(p, x)) == (SavedModel { proposals: put_schedule(img.proposals, p, x), ..img }),
{
    lemma_block_prefix(img, p, x, x.len() as int);
    assert(resave_schedule(p, x).take(x.len() as int) =~= resave_schedule(p, x));
    assert(x.take(x.len() as int) =~= x);
}

/// Saving the schedule of every target afresh replaces exactly the saved
/// proposals of the targets.
pub proof fn lemma_replay_targets(img: SavedModel, sched: Map<ProcessIdModel, Seq<ProposalModel>>, ps: Seq<ProposalModel>)
    requires
        histories_fit(sched),
    ensures
        replay(img, target_resaves(sched, ps)) == (SavedModel { proposals: put_targets(img.proposals, sched, ps), ..img }),
    decreases ps.len(),
{
    if ps.len() == 0 {
        assert(put_targets(img.proposals, sched, ps) =~= img.proposals);
    } else {
        let t = ps.drop_last();
        let last = ps.last();
        lemma_replay_targets(img, sched, t);
        lemma_replay_concat(img, target_resaves(sched, t), resave_block(last.process, seq_at(sched, last.process)));
        let mid = SavedModel { proposals: put_targets(img.proposals, sched, t), ..img };
        assert(seq_at(sched, last.process).len() <= u64::MAX);
        lemma_replay_block(mid, last.process, seq_at(sched, last.process));
        assert forall|q: ProcessIdModel| q != last.process implies is_target(ps, q) == is_target(t, q) by {
            if is_target(ps, q) {
                let j = choose|j: int| 0 <= j < ps.len() && (#[trigger] ps[j]).process == q;
                assert(j < t.len());
                assert(t[j] == ps[j]);
            }
            if is_target(t, q) {
                let j = choose|j: int| 0 <= j < t.len() && (#[trigger] t[j]).process == q;
                assert(ps[j] == t[j]);
            }
        }
        assert(ps[ps.len() - 1] == last);
        assert(is_target(ps, last.process));
        assert(put_schedule(put_targets(img.proposals, sched, t), last.process, seq_at(sched, last.process))
            =~= put_targets(img.proposals, sched, ps));
    }
}

/// Enqueueing leaves the schedule of every process that no proposal targets.
pub proof fn lemma_enqueue_untouched(m: Map<ProcessIdModel, Seq<ProposalModel>>, ps: Seq<ProposalModel>, q: ProcessIdModel)
    requires
        !is_target(ps, q),
    ensures
        seq_at(enqueue_all(m, ps), q) == seq_at(m, q),
    decreases ps.len(),
{
    if ps.len() > 0 {
        let t = ps.drop_last();
        if is_target(t, q) {
            let j = choose|j: int| 0 <= j < t.len() && (#[trigger] t[j]).process == q;
            assert(ps[j] == t[j]);
        }
        lemma_enqueue_untouched(m, t, q);
        assert(ps[ps.len() - 1] == ps.last());
    }
}

/// Two maps of sequences with the same elements at the same positions hold
/// the same sequence under every key.
pub proof fn lemma_indexed_determines<K, V>(m1: Map<K, Seq<V>>, m2: Map<K, Seq<V>>, k: K)
    requires
        indexed(m1) == indexed(m2),
        histories_fit(m2),
    ensures
        seq_at(m1, k) == seq_at(m2, k),
{
    let a = seq_at(m1, k);
    let b = seq_at(m2, k);
    assert(b.len() <= u64::MAX);
    if a.len() < b.len() {
        let key = (k, a.len() as u64);
        assert(indexed(m2).contains_key(key));
        assert(!indexed(m1).contains_key(key));
    }
    if b.len() < a.len() {
        let key = (k, b.len() as u64);
        assert(indexed(m1).contains_key(key));
        assert(!indexed(m2).contains_key(key));
    }
    assert forall|i: int| 0 <= i < a.len() implies a[i] == b[i] by {
        let key = (k, i as u64);
        assert(key.1 as int == i);
        assert(a.len() == b.len());
        assert(indexed(m1).contains_key(key));
        assert(indexed(m1)[key] == a[i]);
        assert(indexed(m2)[key] == b[i]);
    }
    assert(a =~= b);
}

/// The number of rows of `rows` under key `k`.
pub open spec fn rows_under<K, V>(rows: Seq<(K, u64, V)>, k: K) -> nat
    decreases rows.len(),
{
    if rows.len() == 0 {
        0
    } else {
        rows_under(rows.drop_last(), k) + if rows.last().0 == k { 1nat } else { 0nat }
    }
}

/// The rows are listed per key in position order: each row's position is the
/// number of rows of its key before it, so the positions of every key run
/// 0, 1, 2, ... with no gaps.
pub open spec fn rows_in_order<K, V>(rows: Seq<(K, u64, V)>) -> bool {
    forall|i: int| 0 <= i < rows.len() ==> (#[trigger] rows[i]).1 == rows_under(rows.take(i), rows[i].0)
}

/// The saved entries that the rows hold, each under its key and position.
pub open spec fn rows_image<K, V>(rows: Seq<(K, u64, V)>) -> Map<(K, u64), V>
    decreases rows.len(),
{
    if rows.len() == 0 {
        Map::empty()
    } else {
        rows_image(rows.drop_last()).insert((rows.last().0, rows.last().1), rows.last().2)
    }
}

/// Each row's value appended to the sequence of its key, in row order.
pub open spec fn rows_appended<K, V>(rows: Seq<(K, u64, V)>) -> Map<K, Seq<V>>
    decreases rows.len(),
{
    if rows.len() == 0 {
        Map::empty()
    } else {
        append_at(rows_appended(rows.drop_last()), rows.last().0, rows.last().2)
    }
}

/// The saved counters, a later row for a process replacing an earlier one.
pub open spec fn counters_of(rows: Seq<(ProcessIdModel, u64)>) -> Map<ProcessIdModel, u64>
    decreases rows.len(),
{
    if rows.len() == 0 {
        Map::empty()
    } else {
        counters_of(rows.drop_last()).insert(rows.last().0, rows.last().1)
    }
}

/// The scheduler state rebuilt from saved rows: the counters set, and each
/// proposal and receipt appended, in row order, under its key.
pub open spec fn restored(
    counters: Seq<(ProcessIdModel, u64)>,
    proposals: Seq<(ProcessIdModel, u64, ProposalModel)>,
    event_receipts: Seq<(EventIdModel, u64, ReceiptModel)>,
    process_receipts: Seq<(ProcessIdModel, u64, ReceiptModel)>,
) -> SchedulerModel {
    SchedulerModel {
        event_chunks: rows_appended(event_receipts),
        process_chunks: rows_appended(process_receipts),
        schedule: rows_appended(proposals),
        event_counter: counters_of(counters),
    }
}

proof fn lemma_rows_len<K, V>(rows: Seq<(K, u64, V)>, k: K)
    ensures
        seq_at(rows_appended(rows), k).len() == rows_under(rows, k),
    decreases rows.len(),
{
    if rows.len() > 0 {
        lemma_rows_len(rows.drop_last(), k);
    }
}

/// Rows listed in order rebuild sequences whose elements stand exactly where
/// the rows put them.
pub proof fn lemma_rows_indexed<K, V>(rows: Seq<(K, u64, V)>)
    requires
        rows_in_order(rows),
    ensures
        indexed(rows_appended(rows)) == rows_image(rows),
    decreases rows.len(),
{
    if rows.len() == 0 {
        assert(indexed(rows_appended(rows)) =~= rows_image(rows));
    } else {
        let n = rows.len() - 1;
        let t = rows.drop_last();
        assert forall|i: int| 0 <= i < t.len() implies (#[trigger] t[i]).1 == rows_under(t.take(i), t[i].0) by {
            assert(t.take(i) =~= rows.take(i));
            assert(t[i] == rows[i]);
        }
        lemma_rows_indexed(t);
        let last = rows.last();
        assert(rows[n] == last);
        assert(rows.take(n) =~= t);
        lemma_rows_len(t, last.0);
        let m = rows_appended(t);
        assert(seq_at(m, last.0).len() == last.1);
        assert(indexed(append_at(m, last.0, last.2)) =~= indexed(m).insert((last.0, last.1), last.2)) by {
            assert forall|key: (K, u64)| #[trigger] indexed(append_at(m, last.0, last.2)).contains_key(key)
                <==> indexed(m).insert((last.0, last.1), last.2).contains_key(key) by {
                if key.0 == last.0 {
                    assert(key.1 < seq_at(m, last.0).len() + 1 <==> (key.1 < last.1 || key == (last.0, last.1)));
                }
            }
        }
    }
}

/// Rebuilds the scheduler from saved rows (see [`restored`]). When each kind
/// of row is listed per key in position order (see [`rows_in_order`]), the
/// rebuilt state's saved image is exactly what the rows hold.
pub fn restore_scheduler(
    counters: Vec<(ProcessId, u64)>,
    proposals: Vec<(ProcessId, u64, Proposal)>,
    event_receipts: Vec<(EventId, u64, Receipt)>,
    process_receipts: Vec<(ProcessId, u64, Receipt)>,
) -> (r: InMemoryScheduler)
    ensures
        r.wf(),
        r@ == restored(counters.deep_view(), proposals.deep_view(), event_receipts.deep_view(), process_receipts.deep_view()),
        rows_in_order(proposals.deep_view()) && rows_in_order(event_receipts.deep_view())
            && rows_in_order(process_receipts.deep_view()) ==> saved_image(r@) == (SavedModel {
                proposals: rows_image(proposals.deep_view()),
                event_chunks: rows_image(event_receipts.deep_view()),
                process_chunks: rows_image(process_receipts.deep_view()),
                counters: counters_of(counters.deep_view()),
            }),
{
    let mut s = InMemoryScheduler::new();
    let ghost cv = counters.deep_view();
    let ghost pv = proposals.deep_view();
    let ghost ev = event_receipts.deep_view();
    let ghost rv = process_receipts.deep_view();
    assert(s@.schedule =~= rows_appended(pv.take(0)));
    assert(s@.event_chunks =~= rows_appended(ev.take(0)));
    assert(s@.process_chunks =~= rows_appended(rv.take(0)));
    assert(s@.event_counter =~= counters_of(cv.take(0)));
    let mut i: usize = 0;
    while i < counters.len()
        invariant
            s.wf(),
            i <= counters.len(),
            cv == counters.deep_view(),
            s@.event_counter == counters_of(cv.take(i as int)),
            s@.schedule == rows_appended(pv.take(0)),
            s@.event_chunks == rows_appended(ev.take(0)),
            s@.process_chunks == rows_appended(rv.take(0)),
        decreases counters.len() - i,
    {
        assert(cv.take(i + 1).drop_last() =~= cv.take(i as int));
        assert(cv.take(i + 1).last() == cv[i as int]);
        s.set_event_counter(counters[i].0.duplicate(), counters[i].1);
        i = i + 1;
    }
    assert(cv.take(counters.len() as int) =~= cv);
    let mut i: usize = 0;
    while i < proposals.len()
        invariant
            s.wf(),
            i <= proposals.len(),
            pv == proposals.deep_view(),
            s@.event_counter == counters_of(cv),
            s@.schedule == rows_appended(pv.take(i as int)),
            s@.event_chunks == rows_appended(ev.take(0)),
            s@.process_chunks == rows_appended(rv.take(0)),
        decreases proposals.len() - i,
    {
        assert(pv.take(i + 1).drop_last() =~= pv.take(i as int));
        assert(pv.take(i + 1).last() == pv[i as int]);
        s.push_scheduled(proposals[i].0.duplicate(), proposals[i].2.duplicate());
        i = i + 1;
    }
    assert(pv.take(proposals.len() as int) =~= pv);
    let mut i: usize = 0;
    while i < event_receipts.len()
        invariant
            s.wf(),
            i <= event_receipts.len(),
            ev == event_receipts.deep_view(),
            s@.event_counter == counters_of(cv),
            s@.schedule == rows_appended(pv),
            s@.event_chunks == rows_appended(ev.take(i as int)),
            s@.process_chunks == rows_appended(rv.take(0)),
        decreases event_receipts.len() - i,
    {
        assert(ev.take(i + 1).drop_last() =~= ev.take(i as int));
        assert(ev.take(i + 1).last() == ev[i as int]);
        s.push_event_chunk(event_receipts[i].0.duplicate(), event_receipts[i].2.duplicate());
        i = i + 1;
    }
    assert(ev.take(event_receipts.len() as int) =~= ev);
    let mut i: usize = 0;
    while i < process_receipts.len()
        invariant
            s.wf(),
            i <= process_receipts.len(),
            rv == process_receipts.deep_view(),
            s@.event_counter == counters_of(cv),
            s@.schedule == rows_appended(pv),
            s@.event_chunks == rows_appended(ev),
            s@.process_chunks == rows_appended(rv.take(i as int)),
        decreases process_receipts.len() - i,
    {
        assert(rv.take(i + 1).drop_last() =~= rv.take(i as int));
        assert(rv.take(i + 1).last() == rv[i as int]);
        s.push_process_chunk(process_receipts[i].0.duplicate(), process_receipts[i].2.duplicate());
        i = i + 1;
    }
    assert(rv.take(process_receipts.len() as int) =~= rv);
    proof {
        if rows_in_order(pv) && rows_in_order(ev) && rows_in_order(rv) {
            lemma_rows_indexed(pv);
            lemma_rows_indexed(ev);
            lemma_rows_indexed(rv);
        }
    }
    s
}

/// The write after a proposal is added at `position`.
pub fn proposal_write(proposal: &Proposal, position: u64) -> (r: PersistOp)
    ensures
        r.deep_view() == (PersistOpModel::SaveProposal { process: proposal@.process, position, proposal: proposal@ }),
{
    PersistOp::SaveProposal { process: proposal.process.duplicate(), position, proposal: proposal.duplicate() }
}

/// The write of the event counter of `process`, if it has one.
pub fn counter_write(s: &InMemoryScheduler, process: &ProcessId) -> (r: Option<PersistOp>)
    requires
        s.wf(),
    ensures
        r.deep_view() == if s@.event_counter.contains_key(process@) {
            Some(PersistOpModel::SaveEventCounter { process: process@, counter: s@.event_counter[process@] })
        } else {
            None
        },
{
    match s.event_counter_of(process) {
        Some(c) => Some(PersistOp::SaveEventCounter { process: process.duplicate(), counter: c }),
        None => None,
    }
}

fn push_resave(out: &mut Vec<PersistOp>, process: &ProcessId, sched: &Vec<Proposal>)
    ensures
        final(out).deep_view() == old(out).deep_view() + resave_schedule(process@, sched.deep_view()),
{
    let ghost o0 = out.deep_view();
    let ghost sv = sched.deep_view();
    let mut i: usize = 0;
    while i < sched.len()
        invariant
            i <= sched.len(),
            sv == sched.deep_view(),
            out.deep_view() == o0 + resave_schedule(process@, sv).take(i as int),
        decreases sched.len() - i,
    {
        let ghost before = out.deep_view();
        out.push(PersistOp::SaveProposal { process: process.duplicate(), position: i as u64, proposal: sched[i].duplicate() });
        assert(resave_schedule(process@, sv).take(i + 1) =~= resave_schedule(process@, sv).take(i as int).push(resave_schedule(process@, sv)[i as int]));
        assert(out.deep_view() =~= before.push(resave_schedule(process@, sv)[i as int]));
        i = i + 1;
    }
    assert(resave_schedule(process@, sv).take(sched.len() as int) =~= resave_schedule(process@, sv));
}

fn push_block(out: &mut Vec<PersistOp>, s: &InMemoryScheduler, process: &ProcessId)
    requires
        s.wf(),
    ensures
        final(out).deep_view() == old(out).deep_view() + resave_block(process@, seq_at(s@.schedule, process@)),
{
    let ghost o0 = out.deep_view();
    out.push(PersistOp::RemoveProposals { process: process.duplicate() });
    let ghost o1 = out.deep_view();
    assert(o1 =~= o0 + seq![PersistOpModel::RemoveProposals { process: process@ }]);
    match s.schedule_of(process) {
        Some(v) => {
            push_resave(out, process, v);
        },
        None => {
            assert(resave_schedule(process@, Seq::<ProposalModel>::empty()) =~= Seq::<PersistOpModel>::empty());
        },
    }
    assert(out.deep_view() =~= o0 + resave_block(process@, seq_at(s@.schedule, process@)));
}

fn push_target_resaves(out: &mut Vec<PersistOp>, s: &InMemoryScheduler, news: &Vec<Proposal>)
    requires
        s.wf(),
    ensures
        final(out).deep_view() == old(out).deep_view() + target_resaves(s@.schedule, news.deep_view()),
{
    let ghost o0 = out.deep_view();
    let ghost nv = news.deep_view();
    let mut i: usize = 0;
    while i < news.len()
        invariant
            s.wf(),
            i <= news.len(),
            nv == news.deep_view(),
            out.deep_view() == o0 + target_resaves(s@.schedule, nv.take(i as int)),
        decreases news.len() - i,
    {
        assert(nv.take(i + 1).drop_last() =~= nv.take(i as int));
        assert(nv.take(i + 1).last() == nv[i as int]);
        push_block(out, s, &news[i].process);
        assert(out.deep_view() =~= o0 + target_resaves(s@.schedule, nv.take(i + 1)));
        i = i + 1;
    }
    assert(nv.take(news.len() as int) =~= nv);
}

/// The writes after an accepted receipt (see [`satisfy_plan`]); `s` is the
/// scheduler after the receipt, `news` the new proposals it returned.
pub fn satisfy_writes(s: &InMemoryScheduler, process: &ProcessId, event: &EventId, event_seq: u64, log_seq: u64, completes: bool, news: &Vec<Proposal>) -> (r: Vec<PersistOp>)
    requires
        s.wf(),
    ensures
        r.deep_view() == satisfy_plan(s@, process@, event@, event_seq, log_seq, completes, news.deep_view()),
{
    let mut out: Vec<PersistOp> = Vec::new();
    match s.get_chunks_from_event(event) {
        Some(v) => {
            if v.len() > 0 {
                out.push(PersistOp::SaveEventReceipt { event: event.duplicate(), chunk_seq: event_seq, receipt: v[v.len() - 1].duplicate() });
            }
        },
        None => {},
    }
    match s.process_chunks_of(process) {
        Some(v) => {
            if v.len() > 0 {
                out.push(PersistOp::SaveProcessReceipt { process: process.duplicate(), chunk_seq: log_seq, receipt: v[v.len() - 1].duplicate() });
            }
        },
        None => {},
    }
    if completes {
        push_block(&mut out, s, process);
    }
    push_target_resaves(&mut out, s, news);
    proof {
        let plan = satisfy_plan(s@, process@, event@, event_seq, log_seq, completes, news.deep_view());
        assert(out.deep_view() =~= plan);
    }
    out
}

/// The writes after an accepted stateless reply (see [`stateless_plan`]).
pub fn stateless_writes(s: &InMemoryScheduler, process: &ProcessId, news: &Vec<Proposal>) -> (r: Vec<PersistOp>)
    requires
        s.wf(),
    ensures
        r.deep_view() == stateless_plan(s@, process@, news.deep_view()),
{
    let mut out: Vec<PersistOp> = Vec::new();
    push_block(&mut out, s, process);
    push_target_resaves(&mut out, s, news);
    assert(out.deep_view() =~= stateless_plan(s@, process@, news.deep_view()));
    out
}

/// The counter write an accepted receipt calls for (`s` is the state after
/// it): when the proposal names no event, the counter of its process as the
/// receipt left it.
pub open spec fn counter_plan(s: SchedulerModel, prop: ProposalModel) -> Seq<PersistOpModel> {
    if prop.event is None && s.event_counter.contains_key(prop.process) {
        seq![PersistOpModel::SaveEventCounter { process: prop.process, counter: s.event_counter[prop.process] }]
    } else {
        Seq::empty()
    }
}

/// Applies a receipt exactly as [`InMemoryScheduler::try_satisfy_proposal`]
/// does (the event number is claimed once, by that step) and returns, with its
/// outcome, the writes that keep a saved copy in step: the counter the receipt
/// left (see [`counter_plan`]), then [`satisfy_plan`]. A refused receipt
/// changes nothing and calls for no write.
pub fn satisfy_and_save(s: &mut InMemoryScheduler, proposal: &Proposal, receipt: Receipt, completes: bool) -> (r: Result<(NextAction, Vec<Proposal>, Vec<PersistOp>), SchedulerError>)
    requires
        old(s).wf(),
    ensures
        final(s).wf(),
        match try_satisfy_error(old(s)@, proposal@, receipt@) {
            Some(e) => final(s)@ == old(s)@ && (r matches Err(x) && x@ == e),
            None => {
                let c = satisfy_commit(old(s)@, proposal@, receipt@, completes);
                &&& final(s)@ == c.0
                &&& r matches Ok(x) && x.0@ == c.1.0 && x.1.deep_view() == c.1.1
                    && x.2.deep_view() == counter_plan(c.0, proposal@)
                        + satisfy_plan(c.0, proposal@.process, c.1.0.event, receipt@.in_event_seq, receipt@.in_log_seq, completes, c.1.1)
            },
        },
{
    let event_seq = receipt.in_event_seq;
    let log_seq = receipt.in_log_seq;
    let (action, news) = match s.try_satisfy_proposal(proposal, receipt, completes) {
        Ok(x) => x,
        Err(e) => {
            return Err(e);
        },
    };
    let mut writes: Vec<PersistOp> = Vec::new();
    if proposal.event.is_none() {
        match counter_write(s, &proposal.process) {
            Some(op) => {
                writes.push(op);
            },
            None => {},
        }
    }
    let ghost w0 = writes.deep_view();
    assert(w0 =~= counter_plan(s@, proposal@));
    let mut rest = satisfy_writes(s, &proposal.process, &action.event, event_seq, log_seq, completes, &news);
    writes.append(&mut rest);
    assert(writes.deep_view() =~= w0 + satisfy_plan(s@, proposal@.process, action.event@, event_seq, log_seq, completes, news.deep_view()));
    Ok((action, news, writes))
}


/// A scheduler that keeps the writes its operations call for, in order, until
/// they are taken to be saved: its state follows exactly the in-memory
/// scheduler's contracts (it is one, with a queue of pending writes).
pub struct SavingScheduler {
    inner: InMemoryScheduler,
    pending: Vec<PersistOp>,
}

impl SavingScheduler {
    pub closed spec fn wf(&self) -> bool {
        self.inner.wf()
    }

    /// The scheduler's state.
    pub closed spec fn state(&self) -> SchedulerModel {
        self.inner@
    }

    /// The writes not yet taken, oldest first.
    pub closed spec fn pending(&self) -> Seq<PersistOpModel> {
        self.pending.deep_view()
    }

    /// A saving scheduler with the state of `inner` and no pending write.
    pub fn new(inner: InMemoryScheduler) -> (r: SavingScheduler)
        requires
            inner.wf(),
        ensures
            r.wf(),
            r.state() == inner@,
            r.pending() == Seq::<PersistOpModel>::empty(),
    {
        let r = SavingScheduler { inner, pending: Vec::new() };
        assert(r.pending.deep_view() =~= Seq::<PersistOpModel>::empty());
        r
    }

    /// The in-memory scheduler inside.
    pub fn inner(&self) -> (r: &InMemoryScheduler)
        ensures
            r@ == self.state(),
            self.wf() ==> r.wf(),
    {
        &self.inner
    }

    /// Takes the pending writes, oldest first.
    pub fn take_writes(&mut self) -> (r: Vec<PersistOp>)
        requires
            old(self).wf(),
        ensures
            final(self).wf(),
            final(self).state() == old(self).state(),
            r.deep_view() == old(self).pending(),
            final(self).pending() == Seq::<PersistOpModel>::empty(),
    {
        let mut out: Vec<PersistOp> = Vec::new();
        std::mem::swap(&mut out, &mut self.pending);
        assert(self.pending.deep_view() =~= Seq::<PersistOpModel>::empty());
        out
    }

    fn push_writes(&mut self, writes: Vec<PersistOp>)
        ensures
            final(self).inner == old(self).inner,
            final(self).pending() == old(self).pending() + writes.deep_view(),
    {
        let mut w = writes;
        let ghost w0 = w.deep_view();
        self.pending.append(&mut w);
        assert(self.pending.deep_view() =~= old(self).pending() + w0);
    }

    /// Adds a proposal as the in-memory scheduler does, and queues its write.
    pub fn add_proposal(&mut self, proposal: Proposal) -> (r: u64)
        requires
            old(self).wf(),
        ensures
            final(self).wf(),
            final(self).state() == (SchedulerModel {
                schedule: append_at(old(self).state().schedule, proposal@.process, proposal@),
                ..old(self).state()
            }),
            r == seq_at(old(self).state().schedule, proposal@.process).len(),
            final(self).pending() == old(self).pending()
                + seq![PersistOpModel::SaveProposal { process: proposal@.process, position: r, proposal: proposal@ }],
    {
        let copy = proposal.duplicate();
        let position = self.inner.add_proposal(proposal);
        let mut ws: Vec<PersistOp> = Vec::new();
        ws.push(proposal_write(&copy, position));
        self.push_writes(ws);
        position
    }

    /// Allocates an event as the in-memory scheduler does; an allocation
    /// queues the write of the new counter.
    pub fn allocate_event(&mut self, process: &ProcessId) -> (r: Result<EventId, SchedulerError>)
        requires
            old(self).wf(),
        ensures
            final(self).wf(),
            counter_of(old(self).state().event_counter, process@) == u64::MAX ==> final(self).state() == old(self).state()
                && final(self).pending() == old(self).pending()
                && (r matches Err(x) && x@ == SchedulerErrorModel::CounterExhausted(process@)),
            counter_of(old(self).state().event_counter, process@) < u64::MAX ==> {
                let c = counter_of(old(self).state().event_counter, process@);
                &&& final(self).state() == (SchedulerModel {
                    event_counter: old(self).state().event_counter.insert(process@, (c + 1) as u64),
                    ..old(self).state()
                })
                &&& r matches Ok(e) && e@ == process@.event(c)
                &&& final(self).pending() == old(self).pending()
                    + seq![PersistOpModel::SaveEventCounter { process: process@, counter: (c + 1) as u64 }]
            },
    {
        let r = self.inner.allocate_event(process);
        if r.is_ok() {
            let mut ws: Vec<PersistOp> = Vec::new();
            match counter_write(&self.inner, process) {
                Some(op) => {
                    ws.push(op);
                },
                None => {},
            }
            self.push_writes(ws);
        }
        r
    }

    /// The identifier of the next event of `process`, as the in-memory
    /// scheduler gives it; queues the write of the process's counter.
    pub fn get_next_event_id(&mut self, process: &ProcessId) -> (r: EventId)
        requires
            old(self).wf(),
        ensures
            final(self).wf(),
            final(self).state() == (SchedulerModel {
                event_counter: if old(self).state().event_counter.contains_key(process@) {
                    old(self).state().event_counter
                } else {
                    old(self).state().event_counter.insert(process@, 0)
                },
                ..old(self).state()
            }),
            r@ == process@.event(counter_of(old(self).state().event_counter, process@)),
            final(self).pending() == old(self).pending() + seq![PersistOpModel::SaveEventCounter {
                process: process@,
                counter: counter_of(old(self).state().event_counter, process@),
            }],
    {
        let e = self.inner.get_next_event_id(process);
        let mut ws: Vec<PersistOp> = Vec::new();
        match counter_write(&self.inner, process) {
            Some(op) => {
                ws.push(op);
            },
            None => {},
        }
        self.push_writes(ws);
        e
    }

    /// Applies a receipt as [`satisfy_and_save`] does, queueing its writes.
    pub fn satisfy_proposal(&mut self, proposal: &Proposal, receipt: Receipt, completes: bool) -> (r: Result<(NextAction, Vec<Proposal>), SchedulerError>)
        requires
            old(self).wf(),
        ensures
            final(self).wf(),
            match try_satisfy_error(old(self).state(), proposal@, receipt@) {
                Some(e) => final(self).state() == old(self).state() && final(self).pending() == old(self).pending()
                    && (r matches Err(x) && x@ == e),
                None => {
                    let c = satisfy_commit(old(self).state(), proposal@, receipt@, completes);
                    &&& final(self).state() == c.0
                    &&& r matches Ok(x) && x.0@ == c.1.0 && x.1.deep_view() == c.1.1
                    &&& final(self).pending() == old(self).pending() + counter_plan(c.0, proposal@)
                        + satisfy_plan(c.0, proposal@.process, c.1.0.event, receipt@.in_event_seq, receipt@.in_log_seq, completes, c.1.1)
                },
            },
    {
        match satisfy_and_save(&mut self.inner, proposal, receipt, completes) {
            Ok((action, news, writes)) => {
                let ghost p0 = self.pending();
                let ghost wv = writes.deep_view();
                self.push_writes(writes);
                assert(self.pending() == p0 + wv);
                Ok((action, news))
            },
            Err(e) => Err(e),
        }
    }

    /// Answers a proposal without running it, as the in-memory scheduler
    /// does, queueing the writes of [`stateless_plan`].
    pub fn stateless_satisfy(&mut self, proposal: &Proposal, reply: Vec<u8>) -> (r: Result<(NextAction, Vec<Proposal>), SchedulerError>)
        requires
            old(self).wf(),
        ensures
            final(self).wf(),
            match stateless_error(old(self).state(), proposal@) {
                Some(e) => final(self).state() == old(self).state() && final(self).pending() == old(self).pending()
                    && (r matches Err(x) && x@ == e),
                None => {
                    let c = stateless_commit(old(self).state(), proposal@, reply@);
                    &&& final(self).state() == c.0
                    &&& r matches Ok(x) && x.0@ == c.1.0 && x.1.deep_view() == c.1.1
                    &&& final(self).pending() == old(self).pending() + stateless_plan(c.0, proposal@.process, c.1.1)
                },
            },
    {
        match self.inner.stateless_satisfy(proposal, reply) {
            Ok((action, news)) => {
                let writes = stateless_writes(&self.inner, &proposal.process, &news);
                self.push_writes(writes);
                Ok((action, news))
            },
            Err(e) => Err(e),
        }
    }
}

impl Scheduler for SavingScheduler {
    closed spec fn well_formed(&self) -> bool {
        self.wf()
    }

    closed spec fn state(&self) -> SchedulerModel {
        self.inner@
    }

    fn add_proposal(&mut self, proposal: Proposal) -> (r: u64) {
        SavingScheduler::add_proposal(self, proposal)
    }

    fn get_next_proposal(&mut self, process: &ProcessId) -> (r: Option<&Proposal>) {
        self.inner.get_next_proposal(process)
    }

    fn get_next_event_id(&mut self, process: &ProcessId) -> (r: EventId) {
        SavingScheduler::get_next_event_id(self, process)
    }

    fn get_log_seq(&self, process: &ProcessId) -> (r: u64) {
        self.inner.get_log_seq(process)
    }

    fn satisfy_proposal(&mut self, proposal: &Proposal, receipt: Receipt, completes_proposal: bool) -> (r: Result<(NextAction, Vec<Proposal>), SchedulerError>) {
        SavingScheduler::satisfy_proposal(self, proposal, receipt, completes_proposal)
    }

    fn get_chunks_from_event(&self, event: &EventId) -> (r: Option<&Vec<Receipt>>) {
        self.inner.get_chunks_from_event(event)
    }

    fn get_chunk_from_event(&self, event: &EventId, chunk_seq: u64) -> (r: Option<&Receipt>) {
        self.inner.get_chunk_from_event(event, chunk_seq)
    }

    fn stateless_satisfy(&mut self, proposal: &Proposal, reply: Vec<u8>) -> (r: Result<(NextAction, Vec<Proposal>), SchedulerError>) {
        SavingScheduler::stateless_satisfy(self, proposal, reply)
    }
}

} // verus!
