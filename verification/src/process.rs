//! What the notifications of the file watchers call for.
//!
//! The watchers hand over their notifications in batches, one batch for each
//! window of time. Only a notification that the content of a file was modified
//! calls for a backup of the files it names.

use crate::naming::copy_bytes;
use vstd::prelude::*;

verus! {

/// What a notification reports of the files it names.
#[derive(Debug, Clone, Copy, PartialEq, Eq)]
pub enum EventKind {
    /// Something happened, and it is not known what.
    Any,
    /// A file was opened, read or closed.
    Access,
    /// A file was created.
    Create,
    /// The content, the name or the attributes of a file were modified.
    Modify,
    /// A file was removed.
    Remove,
    /// Something happened that is none of the above.
    Other,
}

/// One notification of a watcher.
#[derive(Debug)]
pub struct WatchEvent {
    /// What the notification reports.
    pub kind: EventKind,
    /// The files that the notification names.
    pub paths: Vec<Vec<u8>>,
}

/// The paths of a list as mathematical values.
pub open spec fn paths_view(paths: Seq<Vec<u8>>) -> Seq<Seq<u8>> {
    paths.map_values(|p: Vec<u8>| p@)
}

/// Whether a notification of this kind calls for a backup.
pub open spec fn calls_for_backup(kind: EventKind) -> bool {
    kind == EventKind::Modify
}

/// The files that `event` calls for a backup of, in the order in which it
/// names them: all that it names if it reports a modification, and none
/// otherwise.
pub open spec fn event_backups(event: WatchEvent) -> Seq<Seq<u8>> {
    if calls_for_backup(event.kind) {
        paths_view(event.paths@)
    } else {
        Seq::empty()
    }
}

/// The files that a batch of notifications calls for a backup of, in the order
/// of the batch.
pub open spec fn batch_backups(events: Seq<WatchEvent>) -> Seq<Seq<u8>>
    decreases events.len(),
{
    if events.len() == 0 {
        Seq::empty()
    } else {
        batch_backups(events.drop_last()) + event_backups(events.last())
    }
}

/// The files that `event` calls for a backup of.
pub fn event_fn(event: &WatchEvent) -> (r: Vec<Vec<u8>>)
    ensures
        paths_view(r@) == event_backups(*event),
{
    let mut paths: Vec<Vec<u8>> = Vec::new();
    match event.kind {
        EventKind::Modify => {},
        _ => {
            assert(paths_view(paths@) =~= Seq::<Seq<u8>>::empty());
            return paths;
        },
    }
    let mut i: usize = 0;
    while i < event.paths.len()
        invariant
            i <= event.paths.len(),
            paths_view(paths@) == paths_view(event.paths@).subrange(0, i as int),
        decreases event.paths.len() - i,
    {
        let ghost before = paths_view(paths@);
        paths.push(copy_bytes(event.paths[i].as_slice()));
        assert(paths_view(paths@) =~= before.push(event.paths[i as int]@));
        assert(paths_view(paths@) =~= paths_view(event.paths@).subrange(0, i + 1));
        i += 1;
    }
    assert(paths_view(event.paths@).subrange(0, i as int) =~= paths_view(event.paths@));
    paths
}

/// The files that a batch of notifications calls for a backup of. A batch that
/// the watcher reports as failed calls for none.
pub fn event_fn_debounce<E>(batch: &Result<Vec<WatchEvent>, E>) -> (r: Vec<Vec<u8>>)
    ensures
        paths_view(r@) == match batch {
            Ok(events) => batch_backups(events@),
            Err(_) => Seq::empty(),
        },
{
    let mut paths: Vec<Vec<u8>> = Vec::new();
    let events = match batch {
        Ok(events) => events,
        Err(_) => {
            assert(paths_view(paths@) =~= Seq::<Seq<u8>>::empty());
            return paths;
        },
    };
    assert(paths_view(paths@) =~= Seq::<Seq<u8>>::empty());
    let mut i: usize = 0;
    while i < events.len()
        invariant
            i <= events.len(),
            paths_view(paths@) == batch_backups(events@.subrange(0, i as int)),
        decreases events.len() - i,
    {
        let mut named = event_fn(&events[i]);
        let ghost before = paths_view(paths@);
        let ghost added = paths_view(named@);
        proof {
            assert(events@.subrange(0, i + 1).drop_last() =~= events@.subrange(0, i as int));
            assert(events@.subrange(0, i + 1).last() == events[i as int]);
        }
        paths.append(&mut named);
        assert(paths_view(paths@) =~= before + added);
        i += 1;
    }
    assert(events@.subrange(0, i as int) =~= events@);
    paths
}

/// Whether the watching can start: a watcher was set up for every source.
///
/// `established` says of each source whether its watcher could be set up.
pub fn fs_watcher(established: &Vec<bool>) -> (r: bool)
    ensures
        r == (forall|i: int| 0 <= i < established.len() ==> established[i]),
{
    let mut i: usize = 0;
    while i < established.len()
        invariant
            i <= established.len(),
            forall|k: int| 0 <= k < i ==> established[k],
        decreases established.len() - i,
    {
        if !established[i] {
            return false;
        }
        i += 1;
    }
    true
}

} // verus!
