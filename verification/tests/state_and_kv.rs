use arcanum::in_memory::InMemoryKVState;
use arcanum::state::db_path_for_process;
use arcanum::types::ProcessId;

fn pid(ns: &str, app: &str, proc: &str) -> ProcessId {
    ProcessId { namespace: ns.to_string(), app: app.to_string(), proc: proc.to_string() }
}

#[test]
fn kv_read_after_write() {
    let mut kv = InMemoryKVState::new();
    let p = pid("test", "counter", "entrypoint");
    assert_eq!(kv.get(&p, "count"), None);
    kv.set(&p, "count", "1".to_string());
    assert_eq!(kv.get(&p, "count"), Some("1".to_string()));
    kv.set(&p, "count", "2".to_string());
    assert_eq!(kv.get(&p, "count"), Some("2".to_string()));
}

#[test]
fn kv_processes_are_isolated() {
    let mut kv = InMemoryKVState::new();
    let a = pid("test", "a", "entrypoint");
    let b = pid("test", "b", "entrypoint");
    kv.set(&a, "k", "from a".to_string());
    assert_eq!(kv.get(&b, "k"), None);
    kv.set(&b, "k", "from b".to_string());
    assert_eq!(kv.get(&a, "k"), Some("from a".to_string()));
    assert_eq!(kv.get(&b, "k"), Some("from b".to_string()));
    kv.set(&a, "other", "x".to_string());
    assert_eq!(kv.get(&a, "k"), Some("from a".to_string()));
}

#[test]
fn db_path_layout() {
    let p = pid("arc", "shop", "cart");
    assert_eq!(db_path_for_process("/data/state", &p), "/data/state/arc/shop/cart.db");
    assert_eq!(db_path_for_process("/data/state/", &p), "/data/state/arc/shop/cart.db");
    assert_eq!(db_path_for_process("", &p), "arc/shop/cart.db");
}
