use arcanum::types::{AppId, EventId, HandlerId, ProcessId};
use arcanum::text::{bytes_eq, copy_bytes, str_eq};

fn pid(ns: &str, app: &str, proc: &str) -> ProcessId {
    ProcessId { namespace: ns.to_string(), app: app.to_string(), proc: proc.to_string() }
}

#[test]
fn process_id_three_parts() {
    let p = ProcessId::try_from("^arc/my-app/worker").unwrap();
    assert_eq!(p, pid("arc", "my-app", "worker"));
}

#[test]
fn process_id_two_parts_is_entrypoint() {
    let p = ProcessId::try_from("test/echo").unwrap();
    assert_eq!(p, pid("test", "echo", "entrypoint"));
}

#[test]
fn process_id_third_part_keeps_slashes() {
    let p = ProcessId::try_from("^a/b/c/d").unwrap();
    assert_eq!(p, pid("a", "b", "c/d"));
}

#[test]
fn process_id_empty_part_is_refused() {
    let e = ProcessId::try_from("^a//c").unwrap_err();
    assert_eq!(e.input, "^a//c");
    assert_eq!(e.reason, "ProcessId parts must not be empty");
    let e = ProcessId::try_from("a/").unwrap_err();
    assert_eq!(e.reason, "ProcessId parts must not be empty");
    let e = ProcessId::try_from("a/b/").unwrap_err();
    assert_eq!(e.reason, "ProcessId parts must not be empty");
}

#[test]
fn process_id_one_part_is_refused() {
    let e = ProcessId::try_from("bogus").unwrap_err();
    assert_eq!(
        e.reason,
        "ProcessId requires two or three parts (namespace/app or namespace/app/process)"
    );
    let e = ProcessId::try_from("").unwrap_err();
    assert_eq!(e.input, "");
    assert_eq!(e.to_string(), "failed to parse '': ProcessId requires two or three parts (namespace/app or namespace/app/process)");
}

#[test]
fn process_id_only_one_caret_is_stripped() {
    let p = ProcessId::try_from("^^a/b").unwrap();
    assert_eq!(p, pid("^a", "b", "entrypoint"));
}

#[test]
fn app_id_parsing() {
    let a = AppId::try_from("^test/echo").unwrap();
    assert_eq!(a, AppId { namespace: "test".into(), app: "echo".into() });
    let a = AppId::try_from("x/y/z").unwrap();
    assert_eq!(a.app, "y/z");
    let e = AppId::try_from("noslash").unwrap_err();
    assert_eq!(e.reason, "AppId requires exactly one slash (namespace/app)");
    assert!(AppId::try_from("/app").is_err());
    assert!(AppId::try_from("ns/").is_err());
}

#[test]
fn display_forms() {
    assert_eq!(pid("sys", "mgmt", "entrypoint").to_string(), "^sys/mgmt/entrypoint");
    let e = EventId { namespace: "a".into(), app: "b".into(), proc: "c".into(), seq: 48 };
    assert_eq!(e.to_string(), "^a/b/c/e48");
    let e0 = EventId { namespace: "a".into(), app: "b".into(), proc: "c".into(), seq: 0 };
    assert_eq!(e0.to_string(), "^a/b/c/e0");
    let big = EventId { namespace: "a".into(), app: "b".into(), proc: "c".into(), seq: u64::MAX };
    assert_eq!(big.to_string(), "^a/b/c/e18446744073709551615");
    let h = HandlerId { namespace: "n".into(), app: "a".into(), handler: "h".into() };
    assert_eq!(h.to_string(), "^n/a/h");
    assert_eq!(AppId { namespace: "n".into(), app: "a".into() }.to_string(), "^n/a");
}

#[test]
fn process_id_round_trip_through_text() {
    let p = pid("arc", "app", "proc/with/slash");
    assert_eq!(ProcessId::try_from(p.to_string().as_str()).unwrap(), p);
    let a = AppId { namespace: "arc".into(), app: "app".into() };
    assert_eq!(AppId::try_from(a.to_string().as_str()).unwrap(), a);
}

#[test]
fn app_conversions() {
    let p = pid("n", "a", "p");
    let a = AppId::from_process(&p);
    assert_eq!(a, AppId { namespace: "n".into(), app: "a".into() });
    let h = HandlerId { namespace: "n2".into(), app: "a2".into(), handler: "h".into() };
    assert_eq!(AppId::from_handler(&h).to_string(), "^n2/a2");
    assert_eq!(a.with_process("worker".into()), pid("n", "a", "worker"));
    assert_eq!(p.event(7).seq, 7);
    assert_eq!(p.event(7).process(), p);
    assert!(p.same(&p.duplicate()));
    assert!(!p.same(&pid("n", "a", "q")));
}

#[test]
fn text_helpers() {
    assert!(str_eq("abc", "abc"));
    assert!(!str_eq("abc", "abd"));
    assert!(!str_eq("ab", "abc"));
    assert!(bytes_eq(&vec![1, 2], &vec![1, 2]));
    assert!(!bytes_eq(&vec![1, 2], &vec![1]));
    assert_eq!(copy_bytes(&vec![9, 8, 7]), vec![9, 8, 7]);
}
