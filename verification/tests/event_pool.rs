use ras::events::{Event, EventPool, EventType};

fn trigger_id_of(e: &Event) -> u32 {
    match e {
        Event::OnNameEntered { trigger_id, .. } => *trigger_id,
    }
}

fn name_of(e: &Event) -> &'static str {
    match e {
        Event::OnNameEntered { name, .. } => name,
    }
}

#[test]
fn publish_then_find_without_consume() {
    let mut pool = EventPool::new();
    pool.signal_event(
        EventType::OnNameEntered,
        Event::OnNameEntered { trigger_id: 23, name: "Jaques" },
    );
    let first = pool.poll_events(EventType::OnNameEntered, 23, false);
    assert_eq!(first, Some(Event::OnNameEntered { trigger_id: 23, name: "Jaques" }));
    // No implicit removal: a second lookup still returns it.
    let second = pool.poll_events(EventType::OnNameEntered, 23, false);
    assert_eq!(second, Some(Event::OnNameEntered { trigger_id: 23, name: "Jaques" }));
}

#[test]
fn find_without_match_is_absent() {
    let mut pool = EventPool::new();
    assert_eq!(pool.poll_events(EventType::OnNameEntered, 23, false), None);
    pool.signal_event(
        EventType::OnNameEntered,
        Event::OnNameEntered { trigger_id: 23, name: "Jaques" },
    );
    assert_eq!(pool.poll_events(EventType::OnNameEntered, 99, false), None);
}

#[test]
fn find_returns_first_in_append_order() {
    let mut pool = EventPool::new();
    pool.signal_event(
        EventType::OnNameEntered,
        Event::OnNameEntered { trigger_id: 5, name: "first" },
    );
    pool.signal_event(
        EventType::OnNameEntered,
        Event::OnNameEntered { trigger_id: 5, name: "second" },
    );
    let found = pool.poll_events(EventType::OnNameEntered, 5, false).unwrap();
    assert_eq!(name_of(&found), "first");
}

#[test]
fn consume_then_sweep_removes() {
    let mut pool = EventPool::new();
    pool.signal_event(
        EventType::OnNameEntered,
        Event::OnNameEntered { trigger_id: 7, name: "once" },
    );
    // Consuming lookup finds the event.
    let found = pool.poll_events(EventType::OnNameEntered, 7, true);
    assert!(found.is_some());
    // Still visible before the sweep runs.
    let pre_sweep = pool.poll_events(EventType::OnNameEntered, 7, false);
    assert!(pre_sweep.is_some());
    pool.remove_events();
    // Gone after the sweep.
    assert_eq!(pool.poll_events(EventType::OnNameEntered, 7, false), None);
}

#[test]
fn sweep_keeps_only_unmarked_of_three() {
    let mut pool = EventPool::new();
    pool.signal_event(EventType::OnNameEntered, Event::OnNameEntered { trigger_id: 1, name: "a" });
    pool.signal_event(EventType::OnNameEntered, Event::OnNameEntered { trigger_id: 2, name: "b" });
    pool.signal_event(EventType::OnNameEntered, Event::OnNameEntered { trigger_id: 3, name: "c" });
    // Mark the 1st and the 3rd (by insertion order) for removal.
    assert!(pool.poll_events(EventType::OnNameEntered, 1, true).is_some());
    assert!(pool.poll_events(EventType::OnNameEntered, 3, true).is_some());
    pool.remove_events();
    // Exactly the 2nd remains.
    let kept = pool.poll_events(EventType::OnNameEntered, 2, false).unwrap();
    assert_eq!(trigger_id_of(&kept), 2);
    assert_eq!(name_of(&kept), "b");
    assert_eq!(pool.poll_events(EventType::OnNameEntered, 1, false), None);
    assert_eq!(pool.poll_events(EventType::OnNameEntered, 3, false), None);
}

#[test]
fn marking_twice_is_recorded_once() {
    let mut pool = EventPool::new();
    pool.signal_event(EventType::OnNameEntered, Event::OnNameEntered { trigger_id: 4, name: "x" });
    pool.signal_event(EventType::OnNameEntered, Event::OnNameEntered { trigger_id: 6, name: "y" });
    assert!(pool.poll_events(EventType::OnNameEntered, 4, true).is_some());
    assert!(pool.poll_events(EventType::OnNameEntered, 4, true).is_some());
    pool.remove_events();
    assert_eq!(pool.poll_events(EventType::OnNameEntered, 4, false), None);
    // The other event survives the sweep untouched.
    let kept = pool.poll_events(EventType::OnNameEntered, 6, false).unwrap();
    assert_eq!(name_of(&kept), "y");
}

#[test]
fn clear_all_removes_unmarked_and_resets_marks() {
    let mut pool = EventPool::new();
    pool.signal_event(EventType::OnNameEntered, Event::OnNameEntered { trigger_id: 8, name: "u" });
    pool.signal_event(EventType::OnNameEntered, Event::OnNameEntered { trigger_id: 9, name: "v" });
    // Mark one; the other was never marked.
    assert!(pool.poll_events(EventType::OnNameEntered, 8, true).is_some());
    pool.clear_all_events();
    assert_eq!(pool.poll_events(EventType::OnNameEntered, 8, false), None);
    assert_eq!(pool.poll_events(EventType::OnNameEntered, 9, false), None);
    // Pending-removal tracking was reset: a later publish at the position of
    // the stale mark survives the next sweep.
    pool.signal_event(
        EventType::OnNameEntered,
        Event::OnNameEntered { trigger_id: 10, name: "w" },
    );
    pool.remove_events();
    let kept = pool.poll_events(EventType::OnNameEntered, 10, false).unwrap();
    assert_eq!(trigger_id_of(&kept), 10);
}

#[test]
fn sweep_on_empty_pool_is_noop() {
    let mut pool = EventPool::new();
    pool.remove_events();
    assert_eq!(pool.poll_events(EventType::OnNameEntered, 0, false), None);
}
