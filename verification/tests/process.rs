use versioned_backup::process::event_fn;
use versioned_backup::process::event_fn_debounce;
use versioned_backup::process::fs_watcher;
use versioned_backup::process::EventKind;
use versioned_backup::process::WatchEvent;

fn event(kind: EventKind, paths: &[&str]) -> WatchEvent {
    WatchEvent { kind, paths: paths.iter().map(|p| p.as_bytes().to_vec()).collect() }
}

#[test]
fn modification_calls_for_backups() {
    let named = event_fn(&event(EventKind::Modify, &["/data/a.txt", "/data/b.txt"]));
    assert_eq!(named, vec![b"/data/a.txt".to_vec(), b"/data/b.txt".to_vec()]);
}

#[test]
fn other_kinds_call_for_nothing() {
    for kind in [
        EventKind::Any,
        EventKind::Access,
        EventKind::Create,
        EventKind::Remove,
        EventKind::Other,
    ] {
        assert!(event_fn(&event(kind, &["/data/a.txt"])).is_empty());
    }
}

#[test]
fn modification_without_paths_calls_for_nothing() {
    assert!(event_fn(&event(EventKind::Modify, &[])).is_empty());
}

#[test]
fn batch_calls_for_the_backups_of_its_modifications() {
    let batch: Result<Vec<WatchEvent>, String> = Ok(vec![
        event(EventKind::Create, &["/data/new.txt"]),
        event(EventKind::Modify, &["/data/a.txt"]),
        event(EventKind::Access, &["/data/a.txt"]),
        event(EventKind::Modify, &["/data/b.txt", "/data/a.txt"]),
        event(EventKind::Remove, &["/data/b.txt"]),
    ]);
    assert_eq!(
        event_fn_debounce(&batch),
        vec![b"/data/a.txt".to_vec(), b"/data/b.txt".to_vec(), b"/data/a.txt".to_vec()]
    );
}

#[test]
fn failed_batch_calls_for_nothing() {
    let batch: Result<Vec<WatchEvent>, Vec<String>> = Err(vec!["watch lost".to_string()]);
    assert!(event_fn_debounce(&batch).is_empty());
    let empty: Result<Vec<WatchEvent>, ()> = Ok(Vec::new());
    assert!(event_fn_debounce(&empty).is_empty());
}

#[test]
fn watching_needs_every_watcher() {
    assert!(fs_watcher(&vec![true, true, true]));
    assert!(fs_watcher(&Vec::new()));
    assert!(!fs_watcher(&vec![true, false, true]));
    assert!(!fs_watcher(&vec![false]));
    assert!(!fs_watcher(&vec![true, true, false]));
}
