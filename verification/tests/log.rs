use arcanum::log::{
    Chunk, ChunkStatus, Event, EventId, EventStatus, InMemoryLog, LogError, ProcessId, StateChange,
};

fn proc_of(app: &str, proc: &str) -> ProcessId {
    ProcessId::new(app.to_string(), proc.to_string())
}

fn event(p: &ProcessId, seq: u64, status: EventStatus) -> Event {
    Event { id: EventId::new(p.clone(), seq), cause: None, args: None, status, metadata: None }
}

fn chunk(p: &ProcessId, seq: u64, chunk_seq: u64, log_seq: u64, status: ChunkStatus) -> Chunk {
    Chunk {
        event_id: EventId::new(p.clone(), seq),
        chunk_seq,
        log_seq,
        status,
        inputs: Vec::new(),
        effects: Vec::new(),
        state: Vec::new(),
    }
}

#[test]
fn event_runs_through_its_chunks() {
    let mut log = InMemoryLog::new();
    let p = proc_of("hello-world", "greeter");
    assert_eq!(log.add_event(event(&p, 0, EventStatus::Pending)), Ok(0));
    let queued = log.get_queued_events("hello-world".to_string(), "greeter".to_string()).unwrap();
    assert_eq!(queued.len(), 1);
    assert!(log.get_running_events().unwrap().is_empty());

    assert_eq!(log.add_chunk(chunk(&p, 0, 0, 0, ChunkStatus::Start)), Ok(0));
    let queued = log.get_queued_events("hello-world".to_string(), "greeter".to_string()).unwrap();
    assert!(queued.is_empty());
    let running = log.get_running_events().unwrap();
    assert_eq!(running.len(), 1);
    assert_eq!(running[0].id, EventId::new(p.clone(), 0));

    assert_eq!(log.add_chunk(chunk(&p, 0, 1, 1, ChunkStatus::End(Some("done".to_string())))), Ok(1));
    assert!(log.get_running_events().unwrap().is_empty());
    let c = log.get_chunk_in_event(EventId::new(p.clone(), 0), 1).unwrap();
    assert_eq!(c.status, ChunkStatus::End(Some("done".to_string())));
    let all = log.get_chunks_in_event(EventId::new(p.clone(), 0)).unwrap();
    assert_eq!(all.len(), 2);
    assert_eq!(all[0].chunk_seq, 0);
    assert_eq!(all[1].chunk_seq, 1);
    let c = log.get_chunk_in_log("hello-world".to_string(), "greeter".to_string(), 0).unwrap();
    assert_eq!(c.status, ChunkStatus::Start);
    assert!(log.get_chunk_in_log("hello-world".to_string(), "greeter".to_string(), 2).is_none());
}

#[test]
fn no_chunk_after_the_end() {
    let mut log = InMemoryLog::new();
    let p = proc_of("a", "b");
    log.add_event(event(&p, 0, EventStatus::Pending)).unwrap();
    log.add_event(event(&p, 1, EventStatus::Pending)).unwrap();
    log.add_chunk(chunk(&p, 0, 0, 0, ChunkStatus::End(None))).unwrap();
    assert_eq!(log.add_chunk(chunk(&p, 0, 1, 1, ChunkStatus::Middle)), Err(LogError::EventCompleted));
    assert_eq!(LogError::EventCompleted.message(), "event completed");
}

#[test]
fn completed_event_stays_completed() {
    let mut log = InMemoryLog::new();
    let p = proc_of("a", "b");
    log.add_event(event(&p, 0, EventStatus::Running)).unwrap();
    log.add_chunk(chunk(&p, 0, 0, 0, ChunkStatus::End(Some("done".to_string())))).unwrap();
    // later events and chunks of other events leave it completed
    log.add_event(event(&p, 1, EventStatus::Running)).unwrap();
    log.add_chunk(chunk(&p, 1, 0, 1, ChunkStatus::Middle)).unwrap();
    assert_eq!(log.add_chunk(chunk(&p, 0, 1, 2, ChunkStatus::Start)), Err(LogError::EventCompleted));
    assert_eq!(log.add_chunk(chunk(&p, 0, 0, 2, ChunkStatus::Start)), Err(LogError::ChunkSeqMismatch));
    assert!(log.get_chunk_in_log("a".to_string(), "b".to_string(), 2).is_none());
    let running = log.get_running_events().unwrap();
    assert_eq!(running.len(), 1);
    assert_eq!(running[0].id, EventId::new(p.clone(), 1));
    let chunks = log.get_chunks_in_event(EventId::new(p.clone(), 0)).unwrap();
    assert_eq!(chunks.len(), 1);
}

#[test]
fn chunk_for_missing_event_is_refused() {
    let mut log = InMemoryLog::new();
    let p = proc_of("a", "b");
    assert_eq!(log.add_chunk(chunk(&p, 1, 0, 0, ChunkStatus::Start)), Err(LogError::NoEvent));
    assert_eq!(LogError::NoEvent.message(), "no event");
}

#[test]
fn chunk_for_the_next_unadded_event_is_refused() {
    let mut log = InMemoryLog::new();
    let p = proc_of("a", "b");
    // no event yet: a chunk for event 0 names the count of events
    assert_eq!(log.add_chunk(chunk(&p, 0, 0, 0, ChunkStatus::Start)), Err(LogError::NoEvent));
    log.add_event(event(&p, 0, EventStatus::Pending)).unwrap();
    assert_eq!(log.add_chunk(chunk(&p, 1, 0, 0, ChunkStatus::Start)), Err(LogError::NoEvent));
    assert_eq!(log.add_chunk(chunk(&p, 0, 0, 0, ChunkStatus::Start)), Ok(0));
}

#[test]
fn running_events_of_all_processes_are_kept() {
    let mut log = InMemoryLog::new();
    let p1 = proc_of("a", "one");
    let p2 = proc_of("a", "two");
    log.add_event(event(&p1, 0, EventStatus::Running)).unwrap();
    log.add_event(event(&p2, 0, EventStatus::Running)).unwrap();
    let running = log.get_running_events().unwrap();
    assert_eq!(running.len(), 2);
    assert_eq!(running[0].id, EventId::new(p1.clone(), 0));
    assert_eq!(running[1].id, EventId::new(p2.clone(), 0));
    // ending one leaves the other running
    log.add_chunk(chunk(&p1, 0, 0, 0, ChunkStatus::End(None))).unwrap();
    let running = log.get_running_events().unwrap();
    assert_eq!(running.len(), 1);
    assert_eq!(running[0].id, EventId::new(p2.clone(), 0));
}

#[test]
fn chunk_with_wrong_log_position_is_refused() {
    let mut log = InMemoryLog::new();
    let p = proc_of("a", "b");
    log.add_event(event(&p, 0, EventStatus::Pending)).unwrap();
    log.add_event(event(&p, 1, EventStatus::Pending)).unwrap();
    assert_eq!(log.add_chunk(chunk(&p, 0, 0, 3, ChunkStatus::Start)), Err(LogError::ChunkIdMismatch));
    assert_eq!(LogError::ChunkIdMismatch.message(), "chunk ID mismatch");
    assert!(log.get_chunk_in_log("a".to_string(), "b".to_string(), 0).is_none());
}

#[test]
fn chunk_with_wrong_event_position_is_refused() {
    let mut log = InMemoryLog::new();
    let p = proc_of("a", "b");
    log.add_event(event(&p, 0, EventStatus::Pending)).unwrap();
    log.add_event(event(&p, 1, EventStatus::Pending)).unwrap();
    assert_eq!(log.add_chunk(chunk(&p, 0, 1, 0, ChunkStatus::Start)), Err(LogError::ChunkSeqMismatch));
    assert_eq!(LogError::ChunkSeqMismatch.message(), "chunk seq mismatch");
    // a refused chunk leaves the queue as it was
    let queued = log.get_queued_events("a".to_string(), "b".to_string()).unwrap();
    assert_eq!(queued.len(), 2);
}

#[test]
fn events_must_come_in_order() {
    let mut log = InMemoryLog::new();
    let p = proc_of("a", "b");
    assert_eq!(log.add_event(event(&p, 1, EventStatus::Pending)), Err(LogError::EventIdMismatch));
    assert_eq!(LogError::EventIdMismatch.message(), "event ID mismatch");
    assert_eq!(log.add_event(event(&p, 0, EventStatus::Pending)), Ok(0));
    assert_eq!(log.add_event(event(&p, 0, EventStatus::Pending)), Err(LogError::EventIdMismatch));
    assert_eq!(log.add_event(event(&p, 1, EventStatus::Completed(None))), Ok(1));
}

#[test]
fn running_events_come_in_key_order() {
    let mut log = InMemoryLog::new();
    let p1 = proc_of("a", "one");
    let p2 = proc_of("a", "two");
    log.add_event(event(&p1, 0, EventStatus::Pending)).unwrap();
    log.add_event(event(&p1, 1, EventStatus::Running)).unwrap();
    log.add_event(event(&p2, 0, EventStatus::Running)).unwrap();
    let running = log.get_running_events().unwrap();
    assert_eq!(running.len(), 2);
    assert_eq!(running[0].id, EventId::new(p2.clone(), 0));
    assert_eq!(running[1].id, EventId::new(p1.clone(), 1));
}

#[test]
fn queue_keeps_arrival_order_and_drops_started_events() {
    let mut log = InMemoryLog::new();
    let p = proc_of("a", "b");
    for seq in 0..3 {
        log.add_event(event(&p, seq, EventStatus::Pending)).unwrap();
    }
    log.add_event(event(&p, 3, EventStatus::Pending)).unwrap();
    log.add_chunk(chunk(&p, 1, 0, 0, ChunkStatus::Start)).unwrap();
    let queued = log.get_queued_events("a".to_string(), "b".to_string()).unwrap();
    let seqs: Vec<u64> = queued.iter().map(|e| e.id.seq).collect();
    assert_eq!(seqs, vec![0, 2, 3]);
    assert!(log.get_queued_events("x".to_string(), "y".to_string()).is_none());
}

#[test]
fn lookups_of_unknown_things_are_none() {
    let log = InMemoryLog::new();
    let p = proc_of("a", "b");
    assert!(log.get_chunk_in_event(EventId::new(p.clone(), 0), 0).is_none());
    assert!(log.get_chunks_in_event(EventId::new(p.clone(), 0)).is_none());
    assert!(log.get_chunk_in_log("a".to_string(), "b".to_string(), 0).is_none());
}

#[test]
fn chunk_keeps_its_state_changes() {
    let mut log = InMemoryLog::new();
    let p = proc_of("a", "b");
    log.add_event(event(&p, 0, EventStatus::Pending)).unwrap();
    log.add_event(event(&p, 1, EventStatus::Pending)).unwrap();
    let mut c = chunk(&p, 0, 0, 0, ChunkStatus::Start);
    c.state.push(StateChange::KVSet { key: "k".to_string(), value: "v".to_string() });
    log.add_chunk(c).unwrap();
    let got = log.get_chunk_in_event(EventId::new(p.clone(), 0), 0).unwrap();
    assert_eq!(got.state, vec![StateChange::KVSet { key: "k".to_string(), value: "v".to_string() }]);
}
