use arcanum::actor::{
    executor_step, step_resumes, ExecutorStep, asset_path, route, syscall_kind, EventCursor, HandlerRegistry, RegisterError, Route, SyscallKind,
};
use arcanum::dispatch::{RouteReply, RouteTable};
use arcanum::mgmt::{encode_frame, frame_length, read_request, MgmtKind};
use arcanum::persist::{
    counter_write, proposal_write, restore_scheduler, satisfy_and_save, satisfy_writes, stateless_writes, PersistOp, SavingScheduler,
};
use arcanum::scheduler::{InMemoryScheduler, Promise, Proposal, Receipt, RuntimeStatus};
use arcanum::types::{EventId, HandlerId, ProcessId};

fn pid(ns: &str, app: &str, proc: &str) -> ProcessId {
    ProcessId { namespace: ns.to_string(), app: app.to_string(), proc: proc.to_string() }
}

fn eid(p: &ProcessId, seq: u64) -> EventId {
    EventId { namespace: p.namespace.clone(), app: p.app.clone(), proc: p.proc.clone(), seq }
}

fn proposal(p: &ProcessId, input: &[u8]) -> Proposal {
    Proposal { process: p.clone(), event: None, input: input.to_vec(), promise: None, from: pid("sys", "mgmt", "entrypoint") }
}

#[test]
fn frames() {
    assert_eq!(encode_frame(&b"abc".to_vec()), vec![0, 0, 0, 3, b'a', b'b', b'c']);
    assert_eq!(encode_frame(&vec![]), vec![0, 0, 0, 0]);
    let big = vec![7u8; 300];
    let f = encode_frame(&big);
    assert_eq!(&f[..4], &[0, 0, 1, 44]);
    assert_eq!(f.len(), 304);
    assert_eq!(frame_length(&vec![0, 0, 1, 0]), Some(256));
    assert_eq!(frame_length(&vec![1, 0, 0, 0]), Some(16 * 1024 * 1024));
    assert_eq!(frame_length(&vec![1, 0, 0, 1]), None);
    assert_eq!(frame_length(&vec![255, 255, 255, 255]), None);
}

#[test]
fn management_requests() {
    match read_request("call", "^test/echo") {
        Ok((MgmtKind::Call, p)) => assert_eq!(p, pid("test", "echo", "entrypoint")),
        _ => panic!("expected a call"),
    }
    match read_request("notify", "test/echo/worker") {
        Ok((MgmtKind::Notify, p)) => assert_eq!(p, pid("test", "echo", "worker")),
        _ => panic!("expected a notification"),
    }
    match read_request("send", "^test/echo") {
        Err(m) => assert_eq!(m, "unknown message type: send"),
        _ => panic!("expected a refusal"),
    }
    match read_request("call", "") {
        Err(m) => assert_eq!(m, "invalid target: failed to parse '/entrypoint': ProcessId parts must not be empty"),
        _ => panic!("expected a refusal"),
    }
    // the target is checked before the type
    match read_request("bogus", "a//b") {
        Err(m) => assert!(m.starts_with("invalid target: ")),
        _ => panic!("expected a refusal"),
    }
}

#[test]
fn syscall_names() {
    assert_eq!(syscall_kind("kv_get"), Some(SyscallKind::KvGet));
    assert_eq!(syscall_kind("kv_set"), Some(SyscallKind::KvSet));
    assert_eq!(syscall_kind("sql_exec"), Some(SyscallKind::SqlExec));
    assert_eq!(syscall_kind("sql_query"), Some(SyscallKind::SqlQuery));
    assert_eq!(syscall_kind("call"), Some(SyscallKind::Call));
    assert_eq!(syscall_kind("notify"), Some(SyscallKind::Notify));
    assert_eq!(syscall_kind("register"), Some(SyscallKind::Register));
    assert_eq!(syscall_kind("KV_GET"), None);
    assert_eq!(syscall_kind(""), None);
}

#[test]
fn handler_file_paths() {
    assert_eq!(asset_path("./handlers/a.lua"), "handlers/a.lua");
    assert_eq!(asset_path("handlers/a.lua"), "handlers/a.lua");
    assert_eq!(asset_path("./"), "");
    assert_eq!(asset_path("."), ".");
    assert_eq!(asset_path("././x"), "./x");
}

#[test]
fn event_cursor() {
    let mut c = EventCursor::new();
    let p = pid("a", "b", "c");
    assert_eq!(c.position(&eid(&p, 0)), 0);
    c.advance(eid(&p, 0), 1);
    c.advance(eid(&p, 0), 2);
    assert_eq!(c.position(&eid(&p, 0)), 2);
    assert_eq!(c.position(&eid(&p, 1)), 0);
}

#[test]
fn routing_and_handlers() {
    assert_eq!(route(true, true), Route::Stateless);
    assert_eq!(route(false, true), Route::Executor);
    assert_eq!(route(false, false), Route::Spawn);
    let mut h = HandlerRegistry::new();
    let p = pid("a", "b", "w1");
    assert!(h.handler_of(&p).is_none());
    let handler = HandlerId { namespace: "a".into(), app: "b".into(), handler: "worker".into() };
    assert_eq!(h.register(p.clone(), handler.clone()), Ok(()));
    assert_eq!(h.handler_of(&p), Some(handler.clone()));
    // the same registration again changes nothing
    assert_eq!(h.register(p.clone(), handler.clone()), Ok(()));
    // a different handler for the same process is refused
    let other = HandlerId { namespace: "a".into(), app: "b".into(), handler: "other".into() };
    let refused = h.register(p.clone(), other);
    assert_eq!(refused, Err(RegisterError::HandlerMismatch));
    assert_eq!(refused.unwrap_err().message(), "process is already registered to a different handler");
    assert_eq!(h.handler_of(&p), Some(handler));
}

#[test]
fn route_requests() {
    let mut t = RouteTable::new();
    assert!(matches!(t.handle("add", "^x/site", "site.local"), RouteReply::Added));
    assert!(matches!(t.handle("add", "^x/site", "www.site.local"), RouteReply::Added));
    match t.handle("add", "bogus", "h") {
        RouteReply::InvalidProcess(m) => assert_eq!(m, "invalid process: bogus"),
        _ => panic!("expected a refusal"),
    }
    match t.handle("list-uris", "x/site", "") {
        RouteReply::Uris(v) => assert_eq!(v, vec!["site.local".to_string(), "www.site.local".to_string()]),
        _ => panic!("expected a list"),
    }
    match t.handle("list-uris", "bogus", "") {
        RouteReply::Uris(v) => assert!(v.is_empty()),
        _ => panic!("expected a list"),
    }
    match t.handle("remove", "^x/site", "site.local") {
        RouteReply::Removed(n) => assert_eq!(n, 1),
        _ => panic!("expected a count"),
    }
    match t.handle("remove", "bogus", "www.site.local") {
        RouteReply::Removed(n) => assert_eq!(n, 0),
        _ => panic!("expected a count"),
    }
    match t.handle("purge", "", "") {
        RouteReply::UnknownAction(m) => assert_eq!(m, "unknown action: purge"),
        _ => panic!("expected a refusal"),
    }
    assert_eq!(t.find("www.site.local"), Some(pid("x", "site", "entrypoint")));
    assert_eq!(t.find("site.local"), None);
}

#[test]
fn saving_scheduler_numbers_events_once() {
    let p = pid("a", "b", "c");
    let first = proposal(&p, b"1");
    let receipt = Receipt {
        proposal: first.clone(),
        in_event_seq: 0,
        in_log_seq: 0,
        syscalls: vec![],
        returns: b"r".to_vec(),
        status: RuntimeStatus::End,
    };
    // the same receipt offered to a plain scheduler and to the saving path
    let mut plain = InMemoryScheduler::new();
    plain.add_proposal(first.clone());
    let (plain_action, _) = plain.satisfy_proposal(&first, receipt.clone(), true).ok().unwrap();
    let mut s = InMemoryScheduler::new();
    s.add_proposal(first.clone());
    let (action, news, writes) = match satisfy_and_save(&mut s, &first, receipt, true) {
        Ok(x) => x,
        Err(e) => panic!("refused: {}", e.message()),
    };
    assert_eq!(action.event, plain_action.event);
    assert_eq!(action.event, eid(&p, 0));
    assert!(news.is_empty());
    assert_eq!(s.event_counter_of(&p), Some(1));
    assert_eq!(plain.event_counter_of(&p), Some(1));
    match &writes[0] {
        PersistOp::SaveEventCounter { process, counter } => {
            assert_eq!(process, &p);
            assert_eq!(*counter, 1);
        }
        _ => panic!("expected a counter write first"),
    }
    assert!(matches!(&writes[1], PersistOp::SaveEventReceipt { chunk_seq: 0, .. }));
    assert!(matches!(&writes[2], PersistOp::SaveProcessReceipt { chunk_seq: 0, .. }));
    assert!(matches!(&writes[3], PersistOp::RemoveProposals { .. }));
    assert_eq!(writes.len(), 4);
    // a refused receipt changes nothing and writes nothing
    let stray = proposal(&p, b"x");
    let bad = Receipt {
        proposal: stray.clone(),
        in_event_seq: 0,
        in_log_seq: 5,
        syscalls: vec![],
        returns: vec![],
        status: RuntimeStatus::End,
    };
    assert!(satisfy_and_save(&mut s, &stray, bad, true).is_err());
    assert_eq!(s.event_counter_of(&p), Some(1));
    match counter_write(&s, &p) {
        Some(PersistOp::SaveEventCounter { counter, .. }) => assert_eq!(counter, 1),
        _ => panic!("expected a counter write"),
    }
    assert!(counter_write(&s, &pid("z", "z", "z")).is_none());
}

#[test]
fn writes_after_a_finished_receipt() {
    let mut s = InMemoryScheduler::new();
    let p = pid("a", "b", "c");
    let first = proposal(&p, b"1");
    let second = proposal(&p, b"2");
    assert_eq!(s.add_proposal(first.clone()), 0);
    assert_eq!(s.add_proposal(second.clone()), 1);
    match proposal_write(&second, 1) {
        PersistOp::SaveProposal { position, proposal, .. } => {
            assert_eq!(position, 1);
            assert_eq!(proposal.input, b"2".to_vec());
        }
        _ => panic!("expected a proposal write"),
    }
    let receipt = Receipt {
        proposal: first.clone(),
        in_event_seq: 0,
        in_log_seq: 0,
        syscalls: vec![],
        returns: b"r".to_vec(),
        status: RuntimeStatus::End,
    };
    let (action, news) = match s.satisfy_proposal(&first, receipt, true) {
        Ok(x) => x,
        Err(e) => panic!("refused: {}", e.message()),
    };
    let writes = satisfy_writes(&s, &p, &action.event, 0, 0, true, &news);
    assert_eq!(writes.len(), 4);
    assert!(matches!(&writes[0], PersistOp::SaveEventReceipt { chunk_seq: 0, .. }));
    assert!(matches!(&writes[1], PersistOp::SaveProcessReceipt { chunk_seq: 0, .. }));
    assert!(matches!(&writes[2], PersistOp::RemoveProposals { .. }));
    match &writes[3] {
        PersistOp::SaveProposal { position, proposal, .. } => {
            assert_eq!(*position, 0);
            assert_eq!(proposal.input, b"2".to_vec());
        }
        _ => panic!("expected the remaining proposal"),
    }
    // without completing, only the receipts are written
    let writes = satisfy_writes(&s, &p, &action.event, 0, 0, false, &vec![]);
    assert_eq!(writes.len(), 2);
}

#[test]
fn writes_after_a_stateless_reply() {
    let mut s = InMemoryScheduler::new();
    let caller = pid("a", "caller", "entrypoint");
    let http = pid("sys", "http", "entrypoint");
    // the caller's event makes a call that the stateless process answers
    let start = proposal(&caller, b"go");
    s.add_proposal(start.clone());
    let ev = eid(&caller, 0);
    let call = Proposal {
        process: http.clone(),
        event: None,
        input: b"req".to_vec(),
        promise: Some(Promise { id: 0, target: ev.clone() }),
        from: caller.clone(),
    };
    let receipt = Receipt {
        proposal: start.clone(),
        in_event_seq: 0,
        in_log_seq: 0,
        syscalls: vec![arcanum::scheduler::Syscall::Call { proposal: call.clone() }],
        returns: vec![],
        status: RuntimeStatus::Normal,
    };
    assert!(s.satisfy_proposal(&start, receipt, true).is_ok());
    s.add_proposal(call.clone());
    let (_, news) = s.stateless_satisfy(&call, b"resp".to_vec()).ok().unwrap();
    assert_eq!(news.len(), 1);
    let writes = stateless_writes(&s, &http, &news);
    // the emptied schedule of the stateless process, then the caller's
    // schedule saved afresh with the resolution in it
    assert_eq!(writes.len(), 3);
    assert!(matches!(&writes[0], PersistOp::RemoveProposals { process } if process == &http));
    assert!(matches!(&writes[1], PersistOp::RemoveProposals { process } if process == &caller));
    match &writes[2] {
        PersistOp::SaveProposal { process, position, proposal } => {
            assert_eq!(process, &caller);
            assert_eq!(*position, 0);
            assert_eq!(proposal.event, Some(ev));
            assert_eq!(proposal.input, b"resp".to_vec());
        }
        _ => panic!("expected the resolution"),
    }
}

#[test]
fn every_new_proposal_is_saved_at_its_position() {
    let mut s = InMemoryScheduler::new();
    let a = pid("a", "b", "sender");
    let t = pid("a", "b", "target");
    let start = proposal(&a, b"go");
    s.add_proposal(start.clone());
    let n1 = proposal(&t, b"first");
    let n2 = proposal(&t, b"second");
    let receipt = Receipt {
        proposal: start.clone(),
        in_event_seq: 0,
        in_log_seq: 0,
        syscalls: vec![
            arcanum::scheduler::Syscall::Notify { proposal: n1.clone() },
            arcanum::scheduler::Syscall::Notify { proposal: n2.clone() },
        ],
        returns: vec![],
        status: RuntimeStatus::End,
    };
    let (_, news, writes) = satisfy_and_save(&mut s, &start, receipt, false).ok().unwrap();
    assert_eq!(news.len(), 2);
    let saved: Vec<(u64, Vec<u8>)> = writes
        .iter()
        .filter_map(|w| match w {
            PersistOp::SaveProposal { process, position, proposal } if process == &t => Some((*position, proposal.input.clone())),
            _ => None,
        })
        .collect();
    // both notifications are saved, each at its own position
    assert!(saved.contains(&(0, b"first".to_vec())));
    assert!(saved.contains(&(1, b"second".to_vec())));
}

#[derive(Default)]
struct SavedCopy {
    proposals: std::collections::BTreeMap<(ProcessId, u64), Proposal>,
    event_chunks: std::collections::BTreeMap<(EventId, u64), Receipt>,
    process_chunks: std::collections::BTreeMap<(ProcessId, u64), Receipt>,
    counters: std::collections::BTreeMap<ProcessId, u64>,
}

impl SavedCopy {
    fn apply(&mut self, ops: Vec<PersistOp>) {
        for op in ops {
            match op {
                PersistOp::SaveProposal { process, position, proposal } => {
                    self.proposals.insert((process, position), proposal);
                }
                PersistOp::RemoveProposals { process } => self.proposals.retain(|k, _| k.0 != process),
                PersistOp::SaveEventReceipt { event, chunk_seq, receipt } => {
                    self.event_chunks.insert((event, chunk_seq), receipt);
                }
                PersistOp::SaveProcessReceipt { process, chunk_seq, receipt } => {
                    self.process_chunks.insert((process, chunk_seq), receipt);
                }
                PersistOp::SaveEventCounter { process, counter } => {
                    self.counters.insert(process, counter);
                }
            }
        }
    }

    fn restore(&self) -> InMemoryScheduler {
        let counters: Vec<(ProcessId, u64)> = self.counters.iter().map(|(p, c)| (p.clone(), *c)).collect();
        let proposals: Vec<(ProcessId, u64, Proposal)> =
            self.proposals.iter().map(|((p, i), x)| (p.clone(), *i, x.clone())).collect();
        let events: Vec<(EventId, u64, Receipt)> =
            self.event_chunks.iter().map(|((e, i), r)| (e.clone(), *i, r.clone())).collect();
        let processes: Vec<(ProcessId, u64, Receipt)> =
            self.process_chunks.iter().map(|((p, i), r)| (p.clone(), *i, r.clone())).collect();
        restore_scheduler(counters, proposals, events, processes)
    }
}

#[test]
fn replaying_the_writes_restores_the_scheduler() {
    let mut s = InMemoryScheduler::new();
    let mut saved = SavedCopy::default();
    let a = pid("a", "app", "caller");
    let b = pid("a", "app", "callee");
    let c = pid("a", "app", "listener");
    let start = proposal(&a, b"go");
    let pos = s.add_proposal(start.clone());
    saved.apply(vec![proposal_write(&start, pos)]);
    let call = Proposal {
        process: b.clone(),
        event: None,
        input: b"ping".to_vec(),
        promise: Some(Promise { id: 0, target: eid(&a, 0) }),
        from: a.clone(),
    };
    let r1 = Receipt {
        proposal: start.clone(),
        in_event_seq: 0,
        in_log_seq: 0,
        syscalls: vec![arcanum::scheduler::Syscall::Call { proposal: call.clone() }],
        returns: vec![],
        status: RuntimeStatus::Normal,
    };
    let (_, _, w) = satisfy_and_save(&mut s, &start, r1, true).ok().unwrap();
    saved.apply(w);
    let pos = s.add_proposal(call.clone());
    saved.apply(vec![proposal_write(&call, pos)]);
    let r2 = Receipt {
        proposal: call.clone(),
        in_event_seq: 0,
        in_log_seq: 0,
        syscalls: vec![
            arcanum::scheduler::Syscall::Notify { proposal: proposal(&c, b"n1") },
            arcanum::scheduler::Syscall::Notify { proposal: proposal(&c, b"n2") },
        ],
        returns: b"pong".to_vec(),
        status: RuntimeStatus::End,
    };
    let (_, news, w) = satisfy_and_save(&mut s, &call, r2, true).ok().unwrap();
    assert_eq!(news.len(), 3);
    saved.apply(w);

    let back = saved.restore();
    for p in [&a, &b, &c] {
        let want: Vec<Vec<u8>> = s.schedule_of(p).map(|v| v.iter().map(|x| x.input.clone()).collect()).unwrap_or_default();
        let got: Vec<Vec<u8>> = back.schedule_of(p).map(|v| v.iter().map(|x| x.input.clone()).collect()).unwrap_or_default();
        assert_eq!(got, want);
        assert_eq!(back.get_log_seq(p), s.get_log_seq(p));
        assert_eq!(back.event_counter_of(p), s.event_counter_of(p));
    }
    for e in [eid(&a, 0), eid(&b, 0)] {
        let want = s.get_chunks_from_event(&e).map(|v| v.len());
        let got = back.get_chunks_from_event(&e).map(|v| v.len());
        assert_eq!(got, want);
    }
    assert_eq!(back.schedule_of(&c).unwrap().len(), 2);
}

#[test]
fn restoring_rows_puts_each_where_its_position_says() {
    let p = pid("a", "b", "c");
    let q = pid("a", "b", "d");
    let rows = vec![
        (p.clone(), 0, proposal(&p, b"p0")),
        (p.clone(), 1, proposal(&p, b"p1")),
        (q.clone(), 0, proposal(&q, b"q0")),
    ];
    let s = restore_scheduler(vec![(p.clone(), 7)], rows, vec![], vec![]);
    let got: Vec<Vec<u8>> = s.schedule_of(&p).unwrap().iter().map(|x| x.input.clone()).collect();
    assert_eq!(got, vec![b"p0".to_vec(), b"p1".to_vec()]);
    assert_eq!(s.schedule_of(&q).unwrap().len(), 1);
    assert_eq!(s.event_counter_of(&p), Some(7));
    assert_eq!(s.event_counter_of(&q), None);
    assert_eq!(s.get_log_seq(&p), 0);
}

#[test]
fn executor_steps_follow_the_syscall() {
    let p = pid("a", "b", "c");
    match executor_step(arcanum::scheduler::Syscall::KVRead { key: "k".to_string(), current_value: "v".to_string() }) {
        ExecutorStep::ReadKey(k) => assert_eq!(k, "k"),
        _ => panic!("expected a read"),
    }
    match executor_step(arcanum::scheduler::Syscall::KVWrite { key: "k".to_string(), new_value: "v".to_string() }) {
        ExecutorStep::WriteKey(k, v) => assert_eq!((k.as_str(), v.as_str()), ("k", "v")),
        _ => panic!("expected a write"),
    }
    let n = executor_step(arcanum::scheduler::Syscall::Notify { proposal: proposal(&p, b"x") });
    assert!(matches!(n, ExecutorStep::ResumeNil));
    assert!(step_resumes(&n));
    let c = executor_step(arcanum::scheduler::Syscall::Call { proposal: proposal(&p, b"x") });
    match &c {
        ExecutorStep::ScheduleCall(x) => assert_eq!(x.input, b"x".to_vec()),
        _ => panic!("expected a call"),
    }
    assert!(!step_resumes(&c));
    match executor_step(arcanum::scheduler::Syscall::SqlQuery { sql: "select 1".to_string(), params: vec![1] }) {
        ExecutorStep::SqlQuery(q, params) => {
            assert_eq!(q, "select 1");
            assert_eq!(params, vec![1]);
        }
        _ => panic!("expected a query"),
    }
}

#[test]
fn saving_scheduler_behaves_as_the_in_memory_one() {
    let a = pid("a", "app", "caller");
    let b = pid("a", "app", "callee");
    let mut plain = InMemoryScheduler::new();
    let mut saving = SavingScheduler::new(InMemoryScheduler::new());
    let mut saved = SavedCopy::default();
    let start = proposal(&a, b"go");
    assert_eq!(saving.add_proposal(start.clone()), plain.add_proposal(start.clone()));
    saved.apply(saving.take_writes());
    let call = Proposal {
        process: b.clone(),
        event: None,
        input: b"ping".to_vec(),
        promise: Some(Promise { id: 0, target: eid(&a, 0) }),
        from: a.clone(),
    };
    let r1 = Receipt {
        proposal: start.clone(),
        in_event_seq: 0,
        in_log_seq: 0,
        syscalls: vec![arcanum::scheduler::Syscall::Call { proposal: call.clone() }],
        returns: vec![],
        status: RuntimeStatus::Normal,
    };
    let x = saving.satisfy_proposal(&start, r1.clone(), true).ok().unwrap();
    let y = plain.satisfy_proposal(&start, r1, true).ok().unwrap();
    assert_eq!(x.0.event, y.0.event);
    saved.apply(saving.take_writes());
    assert_eq!(saving.allocate_event(&b).ok().unwrap(), plain.allocate_event(&b).ok().unwrap());
    saved.apply(saving.take_writes());
    assert_eq!(saving.add_proposal(call.clone()), plain.add_proposal(call.clone()));
    saved.apply(saving.take_writes());
    let (_, news) = saving.stateless_satisfy(&call, b"pong".to_vec()).ok().unwrap();
    let (_, news2) = plain.stateless_satisfy(&call, b"pong".to_vec()).ok().unwrap();
    assert_eq!(news.len(), news2.len());
    saved.apply(saving.take_writes());
    assert!(saving.take_writes().is_empty());
    let back = saved.restore();
    for p in [&a, &b] {
        let want: Vec<Vec<u8>> = plain.schedule_of(p).map(|v| v.iter().map(|x| x.input.clone()).collect()).unwrap_or_default();
        let got: Vec<Vec<u8>> = saving.inner().schedule_of(p).map(|v| v.iter().map(|x| x.input.clone()).collect()).unwrap_or_default();
        let restored: Vec<Vec<u8>> = back.schedule_of(p).map(|v| v.iter().map(|x| x.input.clone()).collect()).unwrap_or_default();
        assert_eq!(got, want);
        assert_eq!(restored, want);
        assert_eq!(saving.inner().event_counter_of(p), plain.event_counter_of(p));
        assert_eq!(back.event_counter_of(p), plain.event_counter_of(p));
        assert_eq!(back.get_log_seq(p), plain.get_log_seq(p));
    }
}
