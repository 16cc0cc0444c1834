use arcanum::dispatch::{
    call_outcome, call_syscall, final_receipt, init_proposal, notify_syscall, parse_method,
    register_syscall, resolve_target, spawn_target, syscall_receipt, CallOutcome, HttpMethod, RouteTable,
};
use arcanum::scheduler::{Proposal, Receipt, RuntimeStatus, Syscall};
use arcanum::types::{EventId, HandlerId, ProcessId};

fn pid(ns: &str, app: &str, proc: &str) -> ProcessId {
    ProcessId { namespace: ns.to_string(), app: app.to_string(), proc: proc.to_string() }
}

fn proposal(p: &ProcessId) -> Proposal {
    Proposal { process: p.clone(), event: None, input: b"in".to_vec(), promise: None, from: pid("", "", "") }
}

fn receipt(status: RuntimeStatus, returns: &[u8]) -> Receipt {
    final_receipt(&proposal(&pid("a", "b", "c")), 0, 0, returns.to_vec(), status)
}

#[test]
fn management_targets() {
    assert_eq!(resolve_target("^test/echo/worker").unwrap(), pid("test", "echo", "worker"));
    assert_eq!(resolve_target("test/echo").unwrap(), pid("test", "echo", "entrypoint"));
    // a bare name is read as namespace/name/entrypoint
    assert_eq!(resolve_target("^solo").unwrap(), pid("solo", "entrypoint", "entrypoint"));
    let e = resolve_target("").unwrap_err();
    assert_eq!(e.input, "/entrypoint");
    assert_eq!(e.reason, "ProcessId parts must not be empty");
}

#[test]
fn call_outcomes() {
    assert!(matches!(call_outcome(None), CallOutcome::Pending));
    assert!(matches!(call_outcome(Some(&vec![])), CallOutcome::Pending));
    let v = vec![receipt(RuntimeStatus::Normal, b"")];
    assert!(matches!(call_outcome(Some(&v)), CallOutcome::Pending));
    let v = vec![receipt(RuntimeStatus::Normal, b""), receipt(RuntimeStatus::End, b"42")];
    match call_outcome(Some(&v)) {
        CallOutcome::Done(b) => assert_eq!(b, b"42".to_vec()),
        _ => panic!("expected a finished call"),
    }
    let v = vec![receipt(RuntimeStatus::Error, b"boom")];
    match call_outcome(Some(&v)) {
        CallOutcome::Failed(b) => assert_eq!(b, b"boom".to_vec()),
        _ => panic!("expected a failed call"),
    }
}

#[test]
fn http_methods() {
    assert_eq!(parse_method("GET"), Ok(HttpMethod::Get));
    assert_eq!(parse_method("POST"), Ok(HttpMethod::Post));
    assert_eq!(parse_method("PUT"), Ok(HttpMethod::Put));
    assert_eq!(parse_method("PATCH"), Ok(HttpMethod::Patch));
    assert_eq!(parse_method("DELETE"), Ok(HttpMethod::Delete));
    assert_eq!(parse_method("HEAD"), Ok(HttpMethod::Head));
    assert_eq!(parse_method("OPTIONS"), Ok(HttpMethod::Options));
    assert_eq!(parse_method("TRACE"), Err("invalid HTTP method: TRACE".to_string()));
    assert_eq!(parse_method("get"), Err("invalid HTTP method: get".to_string()));
}

#[test]
fn route_table() {
    let mut t = RouteTable::new();
    let a = pid("x", "a", "entrypoint");
    let b = pid("x", "b", "entrypoint");
    assert!(t.find("a.local").is_none());
    t.add("a.local".to_string(), a.clone());
    t.add("b.local".to_string(), b.clone());
    t.add("a2.local".to_string(), a.clone());
    t.add("a.local".to_string(), b.clone());
    assert_eq!(t.find("a.local"), Some(a.clone()));
    assert_eq!(t.find("b.local"), Some(b.clone()));
    assert_eq!(t.hosts_for(&a), vec!["a.local".to_string(), "a2.local".to_string()]);
    assert_eq!(t.remove("a.local", &a), 1);
    assert_eq!(t.find("a.local"), Some(b.clone()));
    assert_eq!(t.hosts_for(&a), vec!["a2.local".to_string()]);
    assert_eq!(t.remove("nothing", &a), 0);
}

#[test]
fn syscalls_built_by_a_process() {
    let me = pid("arc", "shop", "cart");
    let ev = EventId { namespace: "arc".into(), app: "shop".into(), proc: "cart".into(), seq: 4 };
    match call_syscall("^arc/pay", b"9".to_vec(), 11, &ev, &me) {
        Syscall::Call { proposal } => {
            assert_eq!(proposal.process, pid("arc", "pay", "entrypoint"));
            assert_eq!(proposal.input, b"9".to_vec());
            let promise = proposal.promise.unwrap();
            assert_eq!(promise.id, 11);
            assert_eq!(promise.target, ev);
            assert_eq!(proposal.from, me);
            assert!(proposal.event.is_none());
        }
        _ => panic!("expected a call"),
    }
    match notify_syscall("nonsense", vec![], &me) {
        Syscall::Notify { proposal } => {
            assert_eq!(proposal.process, pid("", "", ""));
            assert!(proposal.promise.is_none());
            assert_eq!(proposal.from, me);
        }
        _ => panic!("expected a notification"),
    }
    match register_syscall("worker".to_string(), "w1".to_string(), &me) {
        Syscall::Register { process, handler } => {
            assert_eq!(process, pid("arc", "shop", "w1"));
            assert_eq!(handler, HandlerId { namespace: "arc".into(), app: "shop".into(), handler: "worker".into() });
        }
        _ => panic!("expected a registration"),
    }
}

#[test]
fn receipts_of_chunks() {
    let me = pid("arc", "shop", "cart");
    let p = proposal(&me);
    let (r, completes) = syscall_receipt(&p, 2, 7, notify_syscall("^arc/x", vec![], &me));
    assert!(!completes);
    assert_eq!(r.in_event_seq, 2);
    assert_eq!(r.in_log_seq, 7);
    assert_eq!(r.syscalls.len(), 1);
    assert!(r.returns.is_empty());
    assert_eq!(r.status, RuntimeStatus::Normal);
    let ev = EventId { namespace: "arc".into(), app: "shop".into(), proc: "cart".into(), seq: 0 };
    let (_, completes) = syscall_receipt(&p, 0, 0, call_syscall("^arc/x", vec![], 0, &ev, &me));
    assert!(completes);
    let r = final_receipt(&p, 3, 8, b"ok".to_vec(), RuntimeStatus::End);
    assert_eq!(r.returns, b"ok".to_vec());
    assert!(r.syscalls.is_empty());
    assert_eq!(r.status, RuntimeStatus::End);
    assert_eq!(r.proposal.input, p.input);
}

#[test]
fn spawning_actors() {
    let me = pid("arc", "shop", "cart");
    assert_eq!(spawn_target(&me, &None), ("^arc/shop".to_string(), "cart".to_string()));
    let h = HandlerId { namespace: "lib".into(), app: "tools".into(), handler: "worker".into() };
    assert_eq!(spawn_target(&me, &Some(h)), ("^lib/tools".to_string(), "worker".to_string()));
    let p = init_proposal(&me);
    assert_eq!(p.process, me);
    assert_eq!(p.from, pid("sys", "init", "entrypoint"));
    assert!(p.input.is_empty());
    assert!(p.promise.is_none());
    assert!(p.event.is_none());
}
