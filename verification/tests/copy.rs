use versioned_backup::copy::abandon_copy;
use versioned_backup::copy::backup_path;
use versioned_backup::copy::complete_copy;
use versioned_backup::copy::initial_copy;
use versioned_backup::copy::try_copy_path;
use versioned_backup::copy::CopyOrder;
use versioned_backup::copy::Observation;
use versioned_backup::state::initialize_state;
use versioned_backup::state::DestinationEntry;
use versioned_backup::state::EntryKind;
use versioned_backup::state::ProcessError;
use versioned_backup::state::SourceInfo;
use versioned_backup::state::SourcePath;
use versioned_backup::state::StateStore;

const SOURCE: &[u8] = b"/data/a.txt";

fn watched(entries: Vec<DestinationEntry>) -> StateStore {
    let mut store = StateStore::new();
    let sources = vec![SourcePath { path: SOURCE.to_vec(), file_name: Some(b"a.txt".to_vec()) }];
    initialize_state(&mut store, &sources, &b"/backup".to_vec(), Ok(entries)).unwrap();
    store
}

fn record(store: &StateStore) -> (u64, u128) {
    let state = store.get(&SOURCE.to_vec()).unwrap();
    (state.number(), state.last_time())
}

/// One backup as the daemon runs it: ask, copy into `directory`, report.
fn run_backup(store: &mut StateStore, directory: &mut Vec<DestinationEntry>, modified: u128) -> Option<String> {
    let order = backup_path(store, &SOURCE.to_vec(), Some(modified)).unwrap()?;
    assert!(store.get(&SOURCE.to_vec()).unwrap().in_progress());
    directory.retain(|entry| entry.file_name != order.file_name);
    directory.push(DestinationEntry {
        file_name: order.file_name.clone(),
        kind: EntryKind::File,
        modified: Some(modified),
    });
    complete_copy(store, &SOURCE.to_vec(), &order).unwrap();
    assert!(!store.get(&SOURCE.to_vec()).unwrap().in_progress());
    Some(String::from_utf8(order.file_name).unwrap())
}

fn listing(directory: &Vec<DestinationEntry>) -> Vec<DestinationEntry> {
    directory
        .iter()
        .map(|entry| DestinationEntry {
            file_name: entry.file_name.clone(),
            kind: entry.kind,
            modified: entry.modified,
        })
        .collect()
}

#[test]
fn first_copy_has_number_zero() {
    let source_info = SourceInfo { prefix: b"a".to_vec(), extension: Some(b"txt".to_vec()) };
    let order = try_copy_path(&b"/backup".to_vec(), &source_info, 0, 0, 5).unwrap();
    assert_eq!(order.directory, b"/backup".to_vec());
    assert_eq!(order.file_name, b"a_0.txt".to_vec());
    assert_eq!((order.number, order.time), (0, 5));
}

#[test]
fn first_copy_takes_the_number_on_record() {
    let source_info = SourceInfo { prefix: b"a".to_vec(), extension: None };
    let order = try_copy_path(&b"/backup".to_vec(), &source_info, 9, 0, 5).unwrap();
    assert_eq!(order.file_name, b"a_9".to_vec());
    assert_eq!((order.number, order.time), (9, 5));
    let last = try_copy_path(&b"/backup".to_vec(), &source_info, u64::MAX, 0, 5).unwrap();
    assert_eq!(last.file_name, b"a_ffffffffffffffff".to_vec());
}

#[test]
fn copies_beside_a_directory_alone_stay_clear_of_its_number() {
    let mut store = watched(vec![DestinationEntry {
        file_name: b"a_5.txt".to_vec(),
        kind: EntryKind::Other,
        modified: None,
    }]);
    assert_eq!(record(&store), (6, 0));
    let mut directory = Vec::new();
    let mut names = Vec::new();
    for modified in [10u128, 20, 30] {
        names.push(run_backup(&mut store, &mut directory, modified).unwrap());
    }
    assert_eq!(names, vec!["a_6.txt".to_string(), "a_7.txt".to_string(), "a_8.txt".to_string()]);
    assert_eq!(record(&store), (8, 30));
}

#[test]
fn later_copy_has_the_next_number() {
    let source_info = SourceInfo { prefix: b"report".to_vec(), extension: Some(b"csv".to_vec()) };
    let order = try_copy_path(&b"/backup".to_vec(), &source_info, 9, 100, 101).unwrap();
    assert_eq!(order.file_name, b"report_a.csv".to_vec());
    assert_eq!((order.number, order.time), (10, 101));
    let order = try_copy_path(&b"/backup".to_vec(), &source_info, 254, 100, 500).unwrap();
    assert_eq!(order.file_name, b"report_ff.csv".to_vec());
}

#[test]
fn no_copy_of_an_unmodified_source() {
    let source_info = SourceInfo { prefix: b"a".to_vec(), extension: Some(b"txt".to_vec()) };
    assert!(try_copy_path(&b"/backup".to_vec(), &source_info, 3, 100, 100).is_none());
    assert!(try_copy_path(&b"/backup".to_vec(), &source_info, 3, 100, 99).is_none());
    assert!(try_copy_path(&b"/backup".to_vec(), &source_info, 0, 0, 0).is_none());
}

#[test]
fn no_copy_once_the_numbers_are_used_up() {
    let source_info = SourceInfo { prefix: b"a".to_vec(), extension: Some(b"txt".to_vec()) };
    assert!(try_copy_path(&b"/backup".to_vec(), &source_info, u64::MAX, 100, 101).is_none());
    let last = try_copy_path(&b"/backup".to_vec(), &source_info, u64::MAX - 1, 100, 101).unwrap();
    assert_eq!(last.file_name, b"a_ffffffffffffffff.txt".to_vec());
}

fn order_of(answer: Result<Option<CopyOrder>, ProcessError>) -> CopyOrder {
    answer.unwrap().unwrap()
}

#[test]
fn backup_needs_a_destination() {
    let mut store = StateStore::new();
    let answer = backup_path(&mut store, &SOURCE.to_vec(), Some(5));
    assert!(matches!(answer, Err(ProcessError::NoDestination)));
}

#[test]
fn backup_needs_a_record() {
    let mut store = watched(vec![]);
    let answer = backup_path(&mut store, &b"/data/other.txt".to_vec(), Some(5));
    assert!(matches!(answer, Err(ProcessError::NoSuchPath { path }) if path == b"/data/other.txt".to_vec()));
    assert!(!store.get(&SOURCE.to_vec()).unwrap().in_progress());
}

#[test]
fn backup_without_a_time_copies_nothing() {
    let mut store = watched(vec![]);
    assert!(matches!(backup_path(&mut store, &SOURCE.to_vec(), None), Ok(None)));
    assert!(!store.get(&SOURCE.to_vec()).unwrap().in_progress());
}

#[test]
fn backup_that_copies_holds_the_lock() {
    let mut store = watched(vec![]);
    let order = order_of(backup_path(&mut store, &SOURCE.to_vec(), Some(10)));
    assert_eq!(order.directory, b"/backup".to_vec());
    assert_eq!(order.file_name, b"a_0.txt".to_vec());
    let state = store.get(&SOURCE.to_vec()).unwrap();
    assert!(state.in_progress());
    assert_eq!((state.number(), state.last_time()), (0, 0));
}

#[test]
fn backup_waits_while_another_is_under_way() {
    let mut store = watched(vec![]);
    let order = order_of(backup_path(&mut store, &SOURCE.to_vec(), Some(10)));
    for modified in [Some(10), Some(20), None, Some(0)] {
        assert!(matches!(
            backup_path(&mut store, &SOURCE.to_vec(), modified),
            Err(ProcessError::InProgress { path }) if path == SOURCE.to_vec()
        ));
        let state = store.get(&SOURCE.to_vec()).unwrap();
        assert!(state.in_progress());
        assert_eq!((state.number(), state.last_time()), (0, 0));
    }
    complete_copy(&mut store, &SOURCE.to_vec(), &order).unwrap();
    assert_eq!(record(&store), (0, 10));
    let next = order_of(backup_path(&mut store, &SOURCE.to_vec(), Some(20)));
    assert_eq!(next.file_name, b"a_1.txt".to_vec());
}

#[test]
fn backups_of_other_sources_do_not_wait() {
    let mut store = StateStore::new();
    let sources = vec![
        SourcePath { path: b"/data/a.txt".to_vec(), file_name: Some(b"a.txt".to_vec()) },
        SourcePath { path: b"/data/b.txt".to_vec(), file_name: Some(b"b.txt".to_vec()) },
    ];
    initialize_state(&mut store, &sources, &b"/backup".to_vec(), Ok(vec![])).unwrap();
    let first = order_of(backup_path(&mut store, &b"/data/a.txt".to_vec(), Some(10)));
    let second = order_of(backup_path(&mut store, &b"/data/b.txt".to_vec(), Some(10)));
    assert_eq!(first.file_name, b"a_0.txt".to_vec());
    assert_eq!(second.file_name, b"b_0.txt".to_vec());
}

#[test]
fn backup_of_an_unmodified_source_is_a_no_op() {
    let mut store = watched(vec![]);
    let mut directory = Vec::new();
    assert_eq!(run_backup(&mut store, &mut directory, 50), Some("a_0.txt".to_string()));
    for _ in 0..5 {
        assert_eq!(run_backup(&mut store, &mut directory, 50), None);
        assert_eq!(run_backup(&mut store, &mut directory, 49), None);
        assert_eq!(record(&store), (0, 50));
        assert_eq!(directory.len(), 1);
    }
}

#[test]
fn backups_number_their_copies_one_by_one() {
    let mut store = watched(vec![]);
    let mut directory = Vec::new();
    let mut before = record(&store);
    assert_eq!(before, (0, 0));
    for (round, modified) in [10u128, 20, 20, 15, 30, 31, 31, 1000].into_iter().enumerate() {
        let made = run_backup(&mut store, &mut directory, modified);
        let after = record(&store);
        if made.is_some() {
            assert!(after.1 > before.1);
            assert_eq!(after.1, modified);
            assert_eq!(after.0, if before.1 > 0 { before.0 + 1 } else { 0 }, "round {}", round);
        } else {
            assert_eq!(after, before);
        }
        before = after;
    }
    assert_eq!(before, (4, 1000));
    assert_eq!(directory.len(), 5);
}

#[test]
fn failed_copy_leaves_the_record() {
    let mut store = watched(vec![]);
    let first = order_of(backup_path(&mut store, &SOURCE.to_vec(), Some(10)));
    assert_eq!(first.file_name, b"a_0.txt".to_vec());
    abandon_copy(&mut store, &SOURCE.to_vec()).unwrap();
    assert_eq!(record(&store), (0, 0));
    assert!(!store.get(&SOURCE.to_vec()).unwrap().in_progress());
    let again = order_of(backup_path(&mut store, &SOURCE.to_vec(), Some(11)));
    assert_eq!(again.file_name, b"a_0.txt".to_vec());
    assert_eq!(again.time, 11);
}

#[test]
fn report_of_a_stale_order_is_dropped() {
    let mut store = watched(vec![]);
    let new = order_of(backup_path(&mut store, &SOURCE.to_vec(), Some(20)));
    complete_copy(&mut store, &SOURCE.to_vec(), &new).unwrap();
    assert_eq!(record(&store), (0, 20));
    let old = CopyOrder {
        directory: b"/backup".to_vec(),
        file_name: b"a_7.txt".to_vec(),
        number: 7,
        time: 20,
    };
    complete_copy(&mut store, &SOURCE.to_vec(), &old).unwrap();
    assert_eq!(record(&store), (0, 20));
}

#[test]
fn report_needs_destination_and_record() {
    let order = CopyOrder {
        directory: b"/backup".to_vec(),
        file_name: b"a_0.txt".to_vec(),
        number: 0,
        time: 9,
    };
    let mut empty = StateStore::new();
    assert!(matches!(
        complete_copy(&mut empty, &SOURCE.to_vec(), &order),
        Err(ProcessError::NoDestination)
    ));
    assert!(matches!(abandon_copy(&mut empty, &SOURCE.to_vec()), Err(ProcessError::NoDestination)));
    let mut store = watched(vec![]);
    assert!(matches!(
        complete_copy(&mut store, &b"/data/b.txt".to_vec(), &order),
        Err(ProcessError::NoSuchPath { path }) if path == b"/data/b.txt".to_vec()
    ));
    assert!(matches!(
        abandon_copy(&mut store, &b"/data/b.txt".to_vec()),
        Err(ProcessError::NoSuchPath { path }) if path == b"/data/b.txt".to_vec()
    ));
    assert_eq!(record(&store), (0, 0));
}

#[test]
fn many_triggers_for_one_change_make_one_copy() {
    let mut store = watched(vec![]);
    let mut directory = Vec::new();
    run_backup(&mut store, &mut directory, 10);
    let made: Vec<Option<String>> =
        (0..8).map(|_| run_backup(&mut store, &mut directory, 25)).collect();
    assert_eq!(made.iter().filter(|m| m.is_some()).count(), 1);
    assert_eq!(made[0], Some("a_1.txt".to_string()));
    assert_eq!(record(&store), (1, 25));
}

#[test]
fn initial_copy_answers_for_each_source() {
    let mut store = StateStore::new();
    let sources = vec![
        SourcePath { path: b"/data/a.txt".to_vec(), file_name: Some(b"a.txt".to_vec()) },
        SourcePath { path: b"/data/b".to_vec(), file_name: Some(b"b".to_vec()) },
    ];
    let entries = vec![DestinationEntry {
        file_name: b"b_2".to_vec(),
        kind: EntryKind::File,
        modified: Some(20),
    }];
    initialize_state(&mut store, &sources, &b"/backup".to_vec(), Ok(entries)).unwrap();
    let seen = vec![
        Observation { path: b"/data/a.txt".to_vec(), modified: Some(7) },
        Observation { path: b"/data/b".to_vec(), modified: Some(20) },
        Observation { path: b"/data/b".to_vec(), modified: Some(21) },
        Observation { path: b"/data/c".to_vec(), modified: Some(21) },
        Observation { path: b"/data/a.txt".to_vec(), modified: Some(8) },
        Observation { path: b"/data/b".to_vec(), modified: None },
    ];
    let answers = initial_copy(&mut store, &seen);
    assert_eq!(answers.len(), 6);
    assert!(matches!(&answers[0], Ok(Some(order)) if order.file_name == b"a_0.txt".to_vec()));
    assert!(matches!(&answers[1], Ok(None)));
    assert!(matches!(&answers[2], Ok(Some(order)) if order.file_name == b"b_3".to_vec()));
    assert!(matches!(&answers[3], Err(ProcessError::NoSuchPath { path }) if path == &b"/data/c".to_vec()));
    assert!(matches!(&answers[4], Err(ProcessError::InProgress { path }) if path == &b"/data/a.txt".to_vec()));
    assert!(matches!(&answers[5], Err(ProcessError::InProgress { path }) if path == &b"/data/b".to_vec()));
    assert!(store.get(&b"/data/a.txt".to_vec()).unwrap().in_progress());
    assert!(store.get(&b"/data/b".to_vec()).unwrap().in_progress());
}

#[test]
fn from_first_copy_through_edits() {
    let mut store = watched(vec![]);
    let mut directory = Vec::new();
    assert_eq!(run_backup(&mut store, &mut directory, 100), Some("a_0.txt".to_string()));
    assert_eq!(run_backup(&mut store, &mut directory, 200), Some("a_1.txt".to_string()));
    // Two edits within one window reach the daemon as one batch: both
    // triggers see the time of the last edit.
    assert_eq!(run_backup(&mut store, &mut directory, 300), Some("a_2.txt".to_string()));
    assert_eq!(run_backup(&mut store, &mut directory, 300), None);
    let names: Vec<Vec<u8>> = directory.iter().map(|entry| entry.file_name.clone()).collect();
    assert_eq!(names, vec![b"a_0.txt".to_vec(), b"a_1.txt".to_vec(), b"a_2.txt".to_vec()]);
    assert_eq!(record(&store), (2, 300));
}

#[test]
fn restart_goes_on_after_the_newest_copy() {
    let mut directory = Vec::new();
    {
        let mut store = watched(vec![]);
        assert_eq!(run_backup(&mut store, &mut directory, 100), Some("a_0.txt".to_string()));
        assert_eq!(run_backup(&mut store, &mut directory, 200), Some("a_1.txt".to_string()));
    }
    let mut store = watched(listing(&directory));
    assert_eq!(record(&store), (1, 200));
    assert_eq!(run_backup(&mut store, &mut directory, 200), None);
    assert_eq!(run_backup(&mut store, &mut directory, 300), Some("a_2.txt".to_string()));
    assert_eq!(directory.len(), 3);
}

#[test]
fn copy_after_a_reserved_number_does_not_reuse_it() {
    let entries = vec![
        DestinationEntry { file_name: b"a_0.txt".to_vec(), kind: EntryKind::File, modified: Some(10) },
        DestinationEntry { file_name: b"a_5.txt".to_vec(), kind: EntryKind::Other, modified: None },
    ];
    let mut store = watched(entries);
    assert_eq!(record(&store), (6, 10));
    let order = order_of(backup_path(&mut store, &SOURCE.to_vec(), Some(11)));
    assert_eq!(order.file_name, b"a_7.txt".to_vec());
}

#[test]
fn callers_that_fall_into_one_another_make_one_copy() {
    let mut store = watched(vec![DestinationEntry {
        file_name: b"a_3.txt".to_vec(),
        kind: EntryKind::File,
        modified: Some(40),
    }]);
    let mut written: Vec<Vec<u8>> = Vec::new();
    // Three callers read the time 50. The first is told to copy; the others
    // ask while it copies, and again after it has reported.
    let first = order_of(backup_path(&mut store, &SOURCE.to_vec(), Some(50)));
    written.push(first.file_name.clone());
    for _ in 0..2 {
        assert!(matches!(
            backup_path(&mut store, &SOURCE.to_vec(), Some(50)),
            Err(ProcessError::InProgress { .. })
        ));
    }
    assert_eq!(record(&store), (3, 40));
    complete_copy(&mut store, &SOURCE.to_vec(), &first).unwrap();
    for _ in 0..2 {
        assert!(matches!(backup_path(&mut store, &SOURCE.to_vec(), Some(50)), Ok(None)));
    }
    assert_eq!(record(&store), (4, 50));
    assert_eq!(written, vec![b"a_4.txt".to_vec()]);
}

/// Runs the calls of `callers` callers in an order that `seed` fixes. Each
/// caller in turn reads a time from `times`, asks, and, if it is told to
/// copy, reports the copy at its next turn. Returns the copies that were made,
/// in their order.
fn run_in_some_order(store: &mut StateStore, callers: usize, seed: u64, times: &[u128]) -> Vec<(u64, u128)> {
    let mut holding: Vec<Option<CopyOrder>> = (0..callers).map(|_| None).collect();
    let mut made = Vec::new();
    let mut next = seed;
    for turn in 0..400usize {
        next = next.wrapping_mul(6364136223846793005).wrapping_add(1442695040888963407);
        let caller = (next >> 33) as usize % callers;
        match holding[caller].take() {
            Some(order) => complete_copy(store, &SOURCE.to_vec(), &order).unwrap(),
            None => {
                let seen = times[(turn + caller) % times.len()];
                match backup_path(store, &SOURCE.to_vec(), Some(seen)) {
                    Ok(Some(order)) => {
                        assert!(holding.iter().all(|held| held.is_none()));
                        made.push((order.number, order.time));
                        holding[caller] = Some(order);
                    }
                    Ok(None) => assert!(holding.iter().all(|held| held.is_none())),
                    Err(ProcessError::InProgress { .. }) => {
                        assert!(holding.iter().any(|held| held.is_some()))
                    }
                    Err(other) => panic!("{}", other.to_string()),
                }
            }
        }
    }
    for held in holding.iter_mut() {
        if let Some(order) = held.take() {
            complete_copy(store, &SOURCE.to_vec(), &order).unwrap();
        }
    }
    made
}

#[test]
fn callers_in_any_order_make_one_copy_for_one_change() {
    for seed in 0..50u64 {
        let mut store = watched(vec![DestinationEntry {
            file_name: b"a_3.txt".to_vec(),
            kind: EntryKind::File,
            modified: Some(40),
        }]);
        let made = run_in_some_order(&mut store, 8, seed, &[50]);
        assert_eq!(made, vec![(4, 50)], "seed {}", seed);
        assert_eq!(record(&store), (4, 50));
    }
}

#[test]
fn callers_in_any_order_number_their_copies_one_by_one() {
    for seed in 0..50u64 {
        let mut store = watched(vec![]);
        let made = run_in_some_order(&mut store, 5, seed, &[7, 3, 9, 9, 12, 1, 30, 30, 31, 8]);
        assert!(!made.is_empty());
        for (place, (number, time)) in made.iter().enumerate() {
            assert_eq!(*number, place as u64, "seed {}", seed);
            if place > 0 {
                assert!(*time > made[place - 1].1, "seed {}", seed);
            }
        }
        assert_eq!(record(&store), *made.last().unwrap());
        assert!(!store.get(&SOURCE.to_vec()).unwrap().in_progress());
    }
}
