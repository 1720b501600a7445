use folder_stats::channel::SignalQueue;
use folder_stats::events::creation_update;
use folder_stats::events::handle_event;
use folder_stats::events::FsEventKind;
use folder_stats::events::ObservedEvent;
use folder_stats::events::PathFacts;
use folder_stats::stats::StatsTable;

fn creation(folder: &str, size: u64) -> ObservedEvent {
    ObservedEvent {
        kind: FsEventKind::Create,
        path: Some(PathFacts {
            is_regular_file: true,
            parent: Some(folder.to_string()),
            size: Some(size),
        }),
    }
}

#[test]
fn creation_event_updates_table_and_signals() {
    let mut t = StatsTable::new();
    let mut q = SignalQueue::with_capacity(32);
    let signaled = handle_event(&mut t, &mut q, creation("a", 10));
    assert!(signaled);
    let a = t.get(&"a".to_string()).unwrap();
    assert_eq!(a.size, 10);
    assert_eq!(a.file_count, 1);
    assert!(q.try_recv());
    assert!(!q.try_recv());
}

#[test]
fn non_creation_events_leave_table_unchanged() {
    let mut t = StatsTable::new();
    let mut q = SignalQueue::with_capacity(32);
    handle_event(&mut t, &mut q, creation("a", 10));
    q.drain();
    for kind in [
        FsEventKind::Modify,
        FsEventKind::Delete,
        FsEventKind::Rename,
        FsEventKind::Other,
    ] {
        let e = ObservedEvent {
            kind,
            path: Some(PathFacts {
                is_regular_file: true,
                parent: Some("a".to_string()),
                size: Some(99),
            }),
        };
        let signaled = handle_event(&mut t, &mut q, e);
        assert!(!signaled);
    }
    let a = t.get(&"a".to_string()).unwrap();
    assert_eq!(a.size, 10);
    assert_eq!(a.file_count, 1);
    assert!(!q.try_recv());
}

#[test]
fn non_regular_file_leaves_table_unchanged() {
    let mut t = StatsTable::new();
    let mut q = SignalQueue::with_capacity(32);
    let e = ObservedEvent {
        kind: FsEventKind::Create,
        path: Some(PathFacts {
            is_regular_file: false,
            parent: Some("a".to_string()),
            size: Some(10),
        }),
    };
    assert!(!handle_event(&mut t, &mut q, e));
    assert_eq!(t.get(&"a".to_string()), None);
    assert!(!q.try_recv());
}

#[test]
fn event_without_path_is_discarded() {
    let mut t = StatsTable::new();
    let mut q = SignalQueue::with_capacity(32);
    let e = ObservedEvent { kind: FsEventKind::Create, path: None };
    assert!(!handle_event(&mut t, &mut q, e));
    assert!(t.snapshot_sorted().is_empty());
}

#[test]
fn event_without_parent_is_skipped() {
    let e = ObservedEvent {
        kind: FsEventKind::Create,
        path: Some(PathFacts { is_regular_file: true, parent: None, size: Some(10) }),
    };
    assert_eq!(creation_update(e), None);
}

#[test]
fn failed_size_query_skips_event() {
    let e = ObservedEvent {
        kind: FsEventKind::Create,
        path: Some(PathFacts {
            is_regular_file: true,
            parent: Some("a".to_string()),
            size: None,
        }),
    };
    assert_eq!(creation_update(e), None);
}

#[test]
fn creation_update_extracts_folder_and_size() {
    assert_eq!(creation_update(creation("a/b", 42)), Some(("a/b".to_string(), 42)));
}

#[test]
fn full_queue_never_loses_the_mutation() {
    let mut t = StatsTable::new();
    let mut q = SignalQueue::with_capacity(1);
    assert!(handle_event(&mut t, &mut q, creation("a", 1)));
    // queue is now full: the signal is refused, the mutation still lands
    assert!(!handle_event(&mut t, &mut q, creation("a", 2)));
    assert!(!handle_event(&mut t, &mut q, creation("b", 4)));
    let a = t.get(&"a".to_string()).unwrap();
    assert_eq!(a.size, 3);
    assert_eq!(a.file_count, 2);
    let b = t.get(&"b".to_string()).unwrap();
    assert_eq!(b.size, 4);
    assert_eq!(b.file_count, 1);
    assert!(q.drain());
    assert!(!q.drain());
}

#[test]
fn drain_empties_the_queue() {
    let mut q = SignalQueue::with_capacity(4);
    assert!(!q.drain());
    assert!(q.try_send());
    assert!(q.try_send());
    assert!(q.drain());
    assert!(!q.try_recv());
}

#[test]
fn queue_respects_its_capacity() {
    let mut q = SignalQueue::with_capacity(2);
    assert!(q.try_send());
    assert!(q.try_send());
    assert!(!q.try_send());
    assert!(q.try_recv());
    assert!(q.try_send());
}
