use arcanum::scheduler::{
    InMemoryScheduler, Promise, Proposal, Receipt, RuntimeStatus, Scheduler, SchedulerError, Syscall,
};
use arcanum::types::{EventId, ProcessId};

fn pid(ns: &str, app: &str, proc: &str) -> ProcessId {
    ProcessId { namespace: ns.to_string(), app: app.to_string(), proc: proc.to_string() }
}

fn eid(p: &ProcessId, seq: u64) -> EventId {
    EventId { namespace: p.namespace.clone(), app: p.app.clone(), proc: p.proc.clone(), seq }
}

fn nobody() -> ProcessId {
    pid("", "", "")
}

fn proposal(p: &ProcessId, input: &[u8]) -> Proposal {
    Proposal { process: p.clone(), event: None, input: input.to_vec(), promise: None, from: nobody() }
}

fn receipt(p: &Proposal, in_event_seq: u64, in_log_seq: u64, syscalls: Vec<Syscall>, returns: Vec<u8>, status: RuntimeStatus) -> Receipt {
    Receipt { proposal: p.clone(), in_event_seq, in_log_seq, syscalls, returns, status }
}

fn is_same(a: &Proposal, b: &Proposal) -> bool {
    a.same(b)
}

#[test]
fn add_proposal_reports_positions() {
    let mut s = InMemoryScheduler::new();
    let p = pid("test", "a", "entrypoint");
    assert_eq!(s.add_proposal(proposal(&p, b"1")), 0);
    assert_eq!(s.add_proposal(proposal(&p, b"2")), 1);
    let q = pid("test", "b", "entrypoint");
    assert_eq!(s.add_proposal(proposal(&q, b"3")), 0);
    let next = s.get_next_proposal(&p).unwrap().clone();
    assert_eq!(next.input, b"1".to_vec());
    assert!(s.get_next_proposal(&pid("x", "y", "z")).is_none());
}

#[test]
fn basic_return_completes_event() {
    let mut s = InMemoryScheduler::new();
    let p = pid("test", "test", "echo");
    let prop = proposal(&p, b"start");
    s.add_proposal(prop.clone());
    assert_eq!(s.get_log_seq(&p), 0);
    let r = receipt(&prop, 0, 0, vec![], b"hello".to_vec(), RuntimeStatus::End);
    let (action, new) = s.satisfy_proposal(&prop, r, true).unwrap();
    assert_eq!(action.event, eid(&p, 0));
    assert!(action.proposal.is_none());
    assert!(new.is_empty());
    let chunks = s.get_chunks_from_event(&eid(&p, 0)).unwrap();
    assert_eq!(chunks.len(), 1);
    assert_eq!(chunks[0].status, RuntimeStatus::End);
    assert!(s.get_next_proposal(&p).is_none());
    assert_eq!(s.get_log_seq(&p), 1);
    assert_eq!(s.get_next_event_id(&p), eid(&p, 1));
    assert_eq!(s.event_counter_of(&p), Some(1));
}

#[test]
fn multi_chunk_event_reuses_event_id() {
    let mut s = InMemoryScheduler::new();
    let p = pid("test", "test", "kv");
    let prop = proposal(&p, b"start");
    s.add_proposal(prop.clone());
    let w = Syscall::KVWrite { key: "k".into(), new_value: "v".into() };
    let r0 = receipt(&prop, 0, 0, vec![w], vec![], RuntimeStatus::Normal);
    let (a0, _) = s.satisfy_proposal(&prop, r0, false).unwrap();
    assert_eq!(a0.event.seq, 0);
    let rd = Syscall::KVRead { key: "k".into(), current_value: "v".into() };
    let r1 = receipt(&prop, 1, 1, vec![rd], vec![], RuntimeStatus::Normal);
    let (a1, _) = s.satisfy_proposal(&prop, r1, false).unwrap();
    assert_eq!(a1.event.seq, 0);
    let r2 = receipt(&prop, 2, 2, vec![], b"done".to_vec(), RuntimeStatus::End);
    s.satisfy_proposal(&prop, r2, true).unwrap();
    assert_eq!(s.get_chunks_from_event(&eid(&p, 0)).unwrap().len(), 3);
    assert_eq!(s.get_chunk_from_event(&eid(&p, 0), 2).unwrap().returns, b"done".to_vec());
    assert!(s.get_chunk_from_event(&eid(&p, 0), 3).is_none());
    assert!(s.get_next_proposal(&p).is_none());
}

#[test]
fn call_then_promise_resolution() {
    let mut s = InMemoryScheduler::new();
    let a = pid("test", "a", "entrypoint");
    let b = pid("test", "b", "entrypoint");
    let pa = proposal(&a, b"start");
    s.add_proposal(pa.clone());
    // A calls B.
    let call = Proposal {
        process: b.clone(),
        event: None,
        input: b"ping".to_vec(),
        promise: Some(Promise { id: 0, target: eid(&a, 0) }),
        from: a.clone(),
    };
    let r = receipt(&pa, 0, 0, vec![Syscall::Call { proposal: call.clone() }], vec![], RuntimeStatus::Normal);
    let (action, new) = s.satisfy_proposal(&pa, r, true).unwrap();
    assert!(is_same(action.proposal.as_ref().unwrap(), &call));
    assert!(new.is_empty());
    assert!(s.get_next_proposal(&a).is_none());
    // The executor schedules the call.
    s.add_proposal(call.clone());
    // B answers.
    let rb = receipt(&call, 0, 0, vec![], b"pong".to_vec(), RuntimeStatus::End);
    let (action_b, new_b) = s.satisfy_proposal(&call, rb, true).unwrap();
    assert_eq!(action_b.event, eid(&b, 0));
    assert_eq!(new_b.len(), 1);
    let back = &new_b[0];
    assert_eq!(back.process, a);
    assert_eq!(back.event, Some(eid(&a, 0)));
    assert_eq!(back.input, b"pong".to_vec());
    assert!(back.promise.is_none());
    assert_eq!(back.from, b);
    let next_a = s.get_next_proposal(&a).unwrap().clone();
    assert!(is_same(&next_a, back));
    // A resumes its event and ends.
    let ra = receipt(&next_a, 1, 1, vec![], b"pong".to_vec(), RuntimeStatus::End);
    let (action_a, new_a) = s.satisfy_proposal(&next_a, ra, true).unwrap();
    assert_eq!(action_a.event, eid(&a, 0));
    assert!(new_a.is_empty());
    assert_eq!(s.get_chunks_from_event(&eid(&a, 0)).unwrap().len(), 2);
}

#[test]
fn completing_receipt_return_value_goes_back() {
    let mut s = InMemoryScheduler::new();
    let a = pid("test", "a", "entrypoint");
    let b = pid("test", "b", "entrypoint");
    let pa = proposal(&a, b"start");
    s.add_proposal(pa.clone());
    let call = Proposal {
        process: b.clone(),
        event: None,
        input: b"ping".to_vec(),
        promise: Some(Promise { id: 0, target: eid(&a, 0) }),
        from: a.clone(),
    };
    let r = receipt(&pa, 0, 0, vec![Syscall::Call { proposal: call.clone() }], vec![], RuntimeStatus::Normal);
    s.satisfy_proposal(&pa, r, true).unwrap();
    s.add_proposal(call.clone());
    // B's event takes two chunks; only the second completes the call.
    let first = receipt(&call, 0, 0, vec![], b"partial".to_vec(), RuntimeStatus::Normal);
    let (_, new1) = s.satisfy_proposal(&call, first, false).unwrap();
    assert!(new1.is_empty());
    let second = receipt(&call, 1, 1, vec![], b"pong".to_vec(), RuntimeStatus::End);
    let (action, new2) = s.satisfy_proposal(&call, second, true).unwrap();
    assert_eq!(action.event, eid(&b, 0));
    assert_eq!(new2.len(), 1);
    assert_eq!(new2[0].input, b"pong".to_vec());
    assert_eq!(new2[0].event, Some(eid(&a, 0)));
}

#[test]
fn notifications_join_target_schedule() {
    let mut s = InMemoryScheduler::new();
    let a = pid("test", "a", "entrypoint");
    let b = pid("test", "b", "entrypoint");
    let pa = proposal(&a, b"start");
    s.add_proposal(pa.clone());
    let note = Proposal { process: b.clone(), event: None, input: b"hello from a".to_vec(), promise: None, from: a.clone() };
    let r = receipt(&pa, 0, 0, vec![Syscall::Notify { proposal: note.clone() }], vec![], RuntimeStatus::Normal);
    let (_, new) = s.satisfy_proposal(&pa, r, false).unwrap();
    assert_eq!(new.len(), 1);
    assert!(is_same(&new[0], &note));
    assert!(is_same(s.get_next_proposal(&b).unwrap(), &note));
    // The proposal of A is still first in its schedule.
    assert!(is_same(s.get_next_proposal(&a).unwrap(), &pa));
}

#[test]
fn refusals() {
    let mut s = InMemoryScheduler::new();
    let p = pid("t", "t", "p");
    let prop = proposal(&p, b"x");
    let r = receipt(&prop, 0, 0, vec![], vec![], RuntimeStatus::End);
    let e = s.satisfy_proposal(&prop, r.clone(), true).unwrap_err();
    assert!(matches!(e, SchedulerError::NoProposals));
    assert_eq!(e.message(), "No proposals exist in schedule");
    // The refusal changed nothing: no event number, no history.
    assert_eq!(s.event_counter_of(&p), None);
    assert!(s.get_chunks_from_event(&eid(&p, 0)).is_none());
    assert!(s.schedule_of(&p).is_none());

    let mut s = InMemoryScheduler::new();
    s.add_proposal(prop.clone());
    let other = proposal(&p, b"y");
    let r = receipt(&other, 0, 0, vec![], vec![], RuntimeStatus::End);
    assert!(matches!(s.satisfy_proposal(&other, r, true), Err(SchedulerError::ProposalMismatch)));

    let mut s = InMemoryScheduler::new();
    s.add_proposal(prop.clone());
    let r = receipt(&prop, 0, 5, vec![], vec![], RuntimeStatus::End);
    let e = s.satisfy_proposal(&prop, r, true).unwrap_err();
    assert!(matches!(e, SchedulerError::LogMisaligned));
    assert_eq!(e.message(), "Chunk is misaligned with chunk history");

    let mut s = InMemoryScheduler::new();
    let with_event = Proposal { event: Some(eid(&p, 3)), ..prop.clone() };
    s.add_proposal(with_event.clone());
    let r = receipt(&with_event, 1, 0, vec![], vec![], RuntimeStatus::End);
    assert!(matches!(s.satisfy_proposal(&with_event, r, true), Err(SchedulerError::EventMisaligned)));

    let mut s = InMemoryScheduler::new();
    s.add_proposal(prop.clone());
    let c1 = Syscall::Call { proposal: proposal(&pid("a", "b", "c"), b"") };
    let w = Syscall::KVWrite { key: "k".into(), new_value: "v".into() };
    let r = receipt(&prop, 0, 0, vec![c1.clone(), w], vec![], RuntimeStatus::Normal);
    let e = s.satisfy_proposal(&prop, r, true).unwrap_err();
    assert!(matches!(e, SchedulerError::CallNotLast));
    assert_eq!(e.message(), "Call syscall must be the last syscall in the list");
    let r = receipt(&prop, 0, 0, vec![c1.clone(), c1], vec![], RuntimeStatus::Normal);
    assert!(matches!(s.satisfy_proposal(&prop, r, true), Err(SchedulerError::CallNotLast)));
}

#[test]
fn later_chunk_rules() {
    let p = pid("t", "t", "p");
    let prop = proposal(&p, b"x");
    let second = proposal(&p, b"y");
    // A chunk of another proposal may only follow a chunk ending in a Call.
    let mut s = InMemoryScheduler::new();
    s.add_proposal(prop.clone());
    s.add_proposal(second.clone());
    let r0 = receipt(&prop, 0, 0, vec![], vec![], RuntimeStatus::Normal);
    s.satisfy_proposal(&prop, r0, true).unwrap();
    let r1 = receipt(&second, 1, 1, vec![], vec![], RuntimeStatus::End);
    let e = s.satisfy_proposal(&second, r1, true).unwrap_err();
    assert!(matches!(e, SchedulerError::PreviousNotCall));
    assert_eq!(e.message(), "Previous chunk must end with a Call syscall");
    // A chunk claiming another process than the chunk before it is refused.
    let mut s = InMemoryScheduler::new();
    s.add_proposal(prop.clone());
    let r0 = receipt(&prop, 0, 0, vec![], vec![], RuntimeStatus::Normal);
    s.satisfy_proposal(&prop, r0, false).unwrap();
    let stranger = proposal(&pid("o", "o", "o"), b"x");
    let r1 = receipt(&stranger, 1, 1, vec![], vec![], RuntimeStatus::End);
    let e = s.satisfy_proposal(&prop, r1, true).unwrap_err();
    assert!(matches!(e, SchedulerError::ProcessMismatch));
}

#[test]
fn stateless_reply_resolves_promise() {
    let mut s = InMemoryScheduler::new();
    let caller = pid("test", "test", "caller");
    let http = pid("sys", "http", "entrypoint");
    let pc = proposal(&caller, b"start");
    s.add_proposal(pc.clone());
    let call = Proposal {
        process: http.clone(),
        event: None,
        input: b"req".to_vec(),
        promise: Some(Promise { id: 0, target: eid(&caller, 0) }),
        from: caller.clone(),
    };
    let r = receipt(&pc, 0, 0, vec![Syscall::Call { proposal: call.clone() }], vec![], RuntimeStatus::Normal);
    s.satisfy_proposal(&pc, r, true).unwrap();
    s.add_proposal(call.clone());
    let (action, new) = s.stateless_satisfy(&call, b"resp".to_vec()).unwrap();
    assert_eq!(action.event, eid(&http, 0));
    assert!(action.proposal.is_none());
    assert_eq!(new.len(), 1);
    assert_eq!(new[0].process, caller);
    assert_eq!(new[0].input, b"resp".to_vec());
    assert_eq!(new[0].event, Some(eid(&caller, 0)));
    assert!(s.get_next_proposal(&http).is_none());
}

#[test]
fn stateless_refusals() {
    let mut s = InMemoryScheduler::new();
    let http = pid("sys", "http", "entrypoint");
    let call = proposal(&http, b"req");
    let e = s.stateless_satisfy(&call, vec![]).unwrap_err();
    assert!(matches!(e, SchedulerError::NoSchedule(_)));
    assert_eq!(e.message(), "No schedule exists for process ^sys/http/entrypoint");
    s.add_proposal(call.clone());
    let other = proposal(&http, b"other");
    assert!(matches!(s.stateless_satisfy(&other, vec![]), Err(SchedulerError::ProposalMismatch)));
    s.stateless_satisfy(&call, vec![]).unwrap();
    assert!(matches!(s.stateless_satisfy(&call, vec![]), Err(SchedulerError::NoProposals)));
}

#[test]
fn trait_object_dispatch() {
    let mut boxed: Box<dyn Scheduler + Send> = Box::new(InMemoryScheduler::default());
    let p = pid("t", "t", "p");
    assert_eq!(boxed.add_proposal(proposal(&p, b"x")), 0);
    assert_eq!(boxed.get_log_seq(&p), 0);
    assert!(boxed.get_next_proposal(&p).is_some());
}

#[test]
fn restoring_state() {
    let mut s = InMemoryScheduler::new();
    let p = pid("t", "t", "p");
    s.set_event_counter(p.clone(), 4);
    assert_eq!(s.get_next_event_id(&p).seq, 4);
    let prop = proposal(&p, b"x");
    let r = receipt(&prop, 0, 0, vec![], vec![], RuntimeStatus::End);
    s.push_event_chunk(eid(&p, 0), r.clone());
    s.push_process_chunk(p.clone(), r);
    assert_eq!(s.get_log_seq(&p), 1);
    assert_eq!(s.process_chunks_of(&p).unwrap().len(), 1);
    assert!(s.schedule_of(&p).is_none());
}

#[test]
fn allocating_events_and_exhausted_counters() {
    let mut s = InMemoryScheduler::new();
    let p = pid("t", "t", "p");
    assert_eq!(s.allocate_event(&p).ok().unwrap(), eid(&p, 0));
    assert_eq!(s.allocate_event(&p).ok().unwrap(), eid(&p, 1));
    assert_eq!(s.event_counter_of(&p), Some(2));
    s.set_event_counter(p.clone(), u64::MAX);
    let e = s.allocate_event(&p).unwrap_err();
    assert!(matches!(e, SchedulerError::CounterExhausted(_)));
    assert_eq!(e.message(), "Event counter is exhausted for process ^t/t/p");
    assert_eq!(s.event_counter_of(&p), Some(u64::MAX));
    // a receipt that would start a new event is refused, changing nothing
    let prop = proposal(&p, b"x");
    s.add_proposal(prop.clone());
    let r = receipt(&prop, 0, 0, vec![], vec![], RuntimeStatus::End);
    assert!(matches!(s.try_satisfy_proposal(&prop, r, true), Err(SchedulerError::CounterExhausted(_))));
    assert!(s.get_chunks_from_event(&eid(&p, u64::MAX)).is_none());
    assert_eq!(s.schedule_of(&p).unwrap().len(), 1);
}
