//! Deciding what is to be copied, and recording what was copied.
//!
//! A backup of one source takes three steps. The caller reads the
//! modification time of the source and asks [`backup_path`] what to do. If a
//! copy is due, the record of the source is marked as in progress, and the
//! caller copies the file to the name it was given. If that went well, it
//! reports the order back through [`complete_copy`], which advances the record
//! and frees it; if not, it calls [`abandon_copy`], which frees the record as
//! it was, and the next change of the source is the next attempt.
//!
//! While a record is in progress every other backup of its source is told to
//! wait, so the copies of one source are made one after the other.

use crate::naming::copy_bytes;
use crate::naming::lemma_version_round_trip;
use crate::naming::version_name;
use crate::naming::version_number;
use crate::naming::write_version_name;
use crate::state::init::copy_entry;
use crate::state::init::lemma_recovery_of_copies;
use crate::state::init::recovered_state;
use crate::state::ProcessError;
use crate::state::SourceInfo;
use crate::state::SourceInfoView;
use crate::state::State;
use crate::state::StateStore;
use crate::state::StateStoreView;
use crate::state::StateView;
use vstd::prelude::*;

verus! {

/// A copy that is due: where it goes, and what the record will hold once it
/// has been made.
#[derive(Debug)]
pub struct CopyOrder {
    /// The destination directory.
    pub directory: Vec<u8>,
    /// The name of the copy in the destination directory.
    pub file_name: Vec<u8>,
    /// The number of the copy.
    pub number: u64,
    /// The modification time of the source that the copy is made from.
    pub time: u128,
}

/// A `CopyOrder` as mathematical values.
pub struct CopyOrderView {
    pub directory: Seq<u8>,
    pub file_name: Seq<u8>,
    pub number: u64,
    pub time: u128,
}

impl View for CopyOrder {
    type V = CopyOrderView;

    open spec fn view(&self) -> CopyOrderView {
        CopyOrderView {
            directory: self.directory@,
            file_name: self.file_name@,
            number: self.number,
            time: self.time,
        }
    }
}

/// What was seen of a source when a backup of it was asked for.
#[derive(Debug)]
pub struct Observation {
    /// The absolute path of the source.
    pub path: Vec<u8>,
    /// The modification time of the source in nanoseconds since the epoch, or
    /// `None` if it could not be read.
    pub modified: Option<u128>,
}

/// The number of the copy that follows a record with the given number and
/// time. While no copy has been made, which a time of 0 says, it is the number
/// on record: 0, or the number that the destination directory has kept free.
/// Else it is one more than the number of the newest copy; there is none once
/// the numbers are used up.
pub open spec fn next_number(number: u64, last_time: u128) -> Option<u64> {
    if last_time == 0 {
        Some(number)
    } else if number < u64::MAX {
        Some((number + 1) as u64)
    } else {
        None
    }
}

/// The copy that is due for a source whose record holds `number` and
/// `last_time` and whose modification time is `modified`: none unless the
/// source was modified after the time on record.
pub open spec fn due_copy(
    destination: Seq<u8>,
    info: SourceInfoView,
    number: u64,
    last_time: u128,
    modified: u128,
) -> Option<CopyOrderView> {
    if modified > last_time {
        match next_number(number, last_time) {
            Some(next) => Some(
                CopyOrderView {
                    directory: destination,
                    file_name: version_name(info.prefix, info.extension, next),
                    number: next,
                    time: modified,
                },
            ),
            None => None,
        }
    } else {
        None
    }
}

/// The view of an optional order.
pub open spec fn order_view(order: Option<CopyOrder>) -> Option<CopyOrderView> {
    match order {
        Some(o) => Some(o@),
        None => None,
    }
}

/// Decides whether a source is to be copied, and under which name and number.
///
/// `number` and `last_time` are what the record of the source holds, and
/// `file_last_modified` is the modification time of the source now.
pub fn try_copy_path(
    destination: &Vec<u8>,
    source_info: &SourceInfo,
    number: u64,
    last_time: u128,
    file_last_modified: u128,
) -> (r: Option<CopyOrder>)
    ensures
        order_view(r) == due_copy(
            destination@,
            source_info@,
            number,
            last_time,
            file_last_modified,
        ),
{
    if file_last_modified <= last_time {
        return None;
    }
    let next_number: u64 = if last_time > 0 {
        if number == u64::MAX {
            return None;
        }
        number + 1
    } else {
        number
    };
    Some(
        CopyOrder {
            directory: copy_bytes(destination.as_slice()),
            file_name: write_version_name(
                source_info.prefix.as_slice(),
                &source_info.extension,
                next_number,
            ),
            number: next_number,
            time: file_last_modified,
        },
    )
}

/// What a backup is told to do.
pub enum BackupStep {
    /// Another backup of the source is under way: wait, and ask again.
    Busy,
    /// No copy is due.
    UpToDate,
    /// Make this copy, then report it or give it up.
    Copy(CopyOrderView),
}

/// What a backup of a source with the record `state` is told to do, given the
/// modification time that was read of the source: to wait if the record is in
/// progress; else to make the copy that is due, if the time could be read and
/// a copy is due.
pub open spec fn backup_step(destination: Seq<u8>, state: StateView, modified: Option<u128>) -> BackupStep {
    if state.in_progress {
        BackupStep::Busy
    } else {
        match modified {
            Some(time) => match due_copy(
                destination,
                state.source_info,
                state.number,
                state.last_time,
                time,
            ) {
                Some(order) => BackupStep::Copy(order),
                None => BackupStep::UpToDate,
            },
            None => BackupStep::UpToDate,
        }
    }
}

/// The record after a backup was told what to do: in progress if it was told
/// to make a copy, and as before if not.
pub open spec fn after_step(state: StateView, step: BackupStep) -> StateView {
    if step is Copy {
        state.acquired()
    } else {
        state
    }
}

/// The records after a backup of the source at `path` was told what to do.
pub open spec fn begun(store: StateStoreView, path: Seq<u8>, modified: Option<u128>) -> Map<
    Seq<u8>,
    StateView,
> {
    match store.destination {
        Some(destination) => if store.records.contains_key(path) {
            store.records.insert(
                path,
                after_step(
                    store.records[path],
                    backup_step(destination, store.records[path], modified),
                ),
            )
        } else {
            store.records
        },
        None => store.records,
    }
}

/// Whether `r` is the answer to a backup of the source at `path`.
///
/// Without a destination the answer is `NoDestination`; without a record under
/// `path` it is `NoSuchPath` with that path; if the backup is told to wait it
/// is `InProgress` with that path; else it is the copy to make, if there is
/// one.
pub open spec fn answers_backup(
    store: StateStoreView,
    path: Seq<u8>,
    modified: Option<u128>,
    r: Result<Option<CopyOrder>, ProcessError>,
) -> bool {
    match r {
        Err(ProcessError::NoDestination) => store.destination is None,
        Err(ProcessError::NoSuchPath { path: missing }) => store.destination is Some
            && !store.records.contains_key(path) && missing@ == path,
        Err(ProcessError::InProgress { path: held }) => store.destination is Some
            && store.records.contains_key(path) && held@ == path && backup_step(
            store.destination->0,
            store.records[path],
            modified,
        ) is Busy,
        Ok(None) => store.destination is Some && store.records.contains_key(path) && backup_step(
            store.destination->0,
            store.records[path],
            modified,
        ) is UpToDate,
        Ok(Some(order)) => store.destination is Some && store.records.contains_key(path)
            && backup_step(store.destination->0, store.records[path], modified)
            == BackupStep::Copy(order@),
    }
}

/// Tells a backup of the source at `path` what to do.
///
/// `file_last_modified` is the modification time of the source, or `None` if
/// it could not be read; in that case no copy is due. If the call gives a copy
/// to make, the record is in progress from now on, until the copy is reported
/// through [`complete_copy`] or given up through [`abandon_copy`]. Else the
/// store stays as it was.
pub fn backup_path(store: &mut StateStore, path: &Vec<u8>, file_last_modified: Option<u128>) -> (r:
    Result<Option<CopyOrder>, ProcessError>)
    ensures
        answers_backup(old(store)@, path@, file_last_modified, r),
        final(store)@.destination == old(store)@.destination,
        final(store)@.records == begun(old(store)@, path@, file_last_modified),
{
    let destination = match store.destination() {
        Some(destination) => destination,
        None => {
            return Err(ProcessError::NoDestination);
        },
    };
    let state = match store.get(path) {
        Some(state) => state,
        None => {
            return Err(ProcessError::NoSuchPath { path: copy_bytes(path.as_slice()) });
        },
    };
    assert(store@.records.insert(path@, store@.records[path@]) =~= store@.records);
    if state.in_progress() {
        return Err(ProcessError::InProgress { path: copy_bytes(path.as_slice()) });
    }
    let time = match file_last_modified {
        Some(time) => time,
        None => {
            return Ok(None);
        },
    };
    let order = match try_copy_path(
        &destination,
        state.source_info(),
        state.number(),
        state.last_time(),
        time,
    ) {
        Some(order) => order,
        None => {
            return Ok(None);
        },
    };
    let acquire = |state: &State| -> (held: State)
        ensures
            held@ == state@.acquired(),
        {
            let mut held = state.duplicate();
            held.try_acquire();
            held
        };
    store.update(copy_bytes(path.as_slice()), acquire);
    Ok(Some(order))
}

/// The records after one backup for each of `seen` was told what to do, in the
/// order of `seen`.
pub open spec fn begun_all(store: StateStoreView, seen: Seq<Observation>) -> Map<Seq<u8>, StateView>
    decreases seen.len(),
{
    if seen.len() == 0 {
        store.records
    } else {
        begun(
            StateStoreView {
                destination: store.destination,
                records: begun_all(store, seen.drop_last()),
            },
            seen.last().path@,
            seen.last().modified,
        )
    }
}

/// Tells a backup of each of `sources` what to do, in their order.
pub fn initial_copy(store: &mut StateStore, sources: &Vec<Observation>) -> (r: Vec<
    Result<Option<CopyOrder>, ProcessError>,
>)
    ensures
        r.len() == sources.len(),
        final(store)@.destination == old(store)@.destination,
        final(store)@.records == begun_all(old(store)@, sources@),
        forall|i: int|
            0 <= i < sources.len() ==> answers_backup(
                StateStoreView {
                    destination: old(store)@.destination,
                    records: begun_all(old(store)@, sources@.subrange(0, i)),
                },
                sources[i].path@,
                sources[i].modified,
                #[trigger] r[i],
            ),
{
    let mut answers: Vec<Result<Option<CopyOrder>, ProcessError>> = Vec::new();
    let mut i: usize = 0;
    while i < sources.len()
        invariant
            i <= sources.len(),
            answers.len() == i,
            store@.destination == old(store)@.destination,
            store@.records == begun_all(old(store)@, sources@.subrange(0, i as int)),
            forall|k: int|
                0 <= k < i ==> answers_backup(
                    StateStoreView {
                        destination: old(store)@.destination,
                        records: begun_all(old(store)@, sources@.subrange(0, k)),
                    },
                    sources[k].path@,
                    sources[k].modified,
                    #[trigger] answers[k],
                ),
        decreases sources.len() - i,
    {
        proof {
            assert(sources@.subrange(0, i + 1).drop_last() =~= sources@.subrange(0, i as int));
            assert(sources@.subrange(0, i + 1).last() == sources[i as int]);
        }
        let ghost before = store@;
        assert(before == (StateStoreView {
            destination: old(store)@.destination,
            records: begun_all(old(store)@, sources@.subrange(0, i as int)),
        }));
        let answer = backup_path(store, &sources[i].path, sources[i].modified);
        answers.push(answer);
        i += 1;
    }
    assert(sources@.subrange(0, i as int) =~= sources@);
    answers
}

/// Records that the copy `order` of the source at `path` has been made, and
/// frees the record.
///
/// Fails with `NoDestination` if no destination has been set, and with
/// `NoSuchPath` if there is no record under `path`; the store is then left as
/// it was. Else the record under `path` takes the number and the time of the
/// order if that time is later than the one on record, and keeps its own if
/// not; every other record stays as it was.
pub fn complete_copy(store: &mut StateStore, path: &Vec<u8>, order: &CopyOrder) -> (r: Result<
    (),
    ProcessError,
>)
    ensures
        final(store)@.destination == old(store)@.destination,
        match r {
            Err(ProcessError::NoDestination) => old(store)@.destination is None && final(store)@
                == old(store)@,
            Err(ProcessError::NoSuchPath { path: missing }) => old(store)@.destination is Some
                && !old(store)@.records.contains_key(path@) && missing@ == path@ && final(store)@
                == old(store)@,
            Err(ProcessError::InProgress { .. }) => false,
            Ok(()) => old(store)@.destination is Some && old(store)@.records.contains_key(path@)
                && final(store)@.records == old(store)@.records.insert(
                path@,
                old(store)@.records[path@].advance(order.number, order.time).released(),
            ),
        },
{
    if store.destination().is_none() {
        return Err(ProcessError::NoDestination);
    }
    let number: u64 = order.number;
    let time: u128 = order.time;
    let publish = |state: &State| -> (after: State)
        ensures
            after@ == state@.advance(number, time).released(),
        {
            let mut after = state.duplicate();
            after.publish(number, time);
            after.release();
            after
        };
    if store.update(copy_bytes(path.as_slice()), publish) {
        Ok(())
    } else {
        Err(ProcessError::NoSuchPath { path: copy_bytes(path.as_slice()) })
    }
}

/// Gives up the copy that the source at `path` was told to make: frees the
/// record and leaves it as it was.
///
/// Fails with `NoDestination` if no destination has been set, and with
/// `NoSuchPath` if there is no record under `path`; the store is then left as
/// it was.
pub fn abandon_copy(store: &mut StateStore, path: &Vec<u8>) -> (r: Result<(), ProcessError>)
    ensures
        final(store)@.destination == old(store)@.destination,
        match r {
            Err(ProcessError::NoDestination) => old(store)@.destination is None && final(store)@
                == old(store)@,
            Err(ProcessError::NoSuchPath { path: missing }) => old(store)@.destination is Some
                && !old(store)@.records.contains_key(path@) && missing@ == path@ && final(store)@
                == old(store)@,
            Err(ProcessError::InProgress { .. }) => false,
            Ok(()) => old(store)@.destination is Some && old(store)@.records.contains_key(path@)
                && final(store)@.records == old(store)@.records.insert(
                path@,
                old(store)@.records[path@].released(),
            ),
        },
{
    if store.destination().is_none() {
        return Err(ProcessError::NoDestination);
    }
    let release = |state: &State| -> (after: State)
        ensures
            after@ == state@.released(),
        {
            let mut after = state.duplicate();
            after.release();
            after
        };
    if store.update(copy_bytes(path.as_slice()), release) {
        Ok(())
    } else {
        Err(ProcessError::NoSuchPath { path: copy_bytes(path.as_slice()) })
    }
}

/// The record of a source after a backup that saw the modification time
/// `modified` and ran to its end: it was told what to do, made the copy if it
/// was told to, and reported it.
pub open spec fn after_backup(destination: Seq<u8>, state: StateView, modified: u128) -> StateView {
    match backup_step(destination, state, Some(modified)) {
        BackupStep::Copy(order) => state.acquired().advance(order.number, order.time).released(),
        _ => state,
    }
}

/// The record of a source after one backup for each of `seen`, one after the
/// other: each saw the modification time that `seen` gives for it and ran to
/// its end.
pub open spec fn after_backups(destination: Seq<u8>, state: StateView, seen: Seq<u128>) -> StateView
    decreases seen.len(),
{
    if seen.len() == 0 {
        state
    } else {
        after_backup(destination, after_backups(destination, state, seen.drop_last()), seen.last())
    }
}

/// How many of the backups for `seen` made a copy.
pub open spec fn copies_made(destination: Seq<u8>, state: StateView, seen: Seq<u128>) -> nat
    decreases seen.len(),
{
    if seen.len() == 0 {
        0
    } else {
        copies_made(destination, state, seen.drop_last()) + if backup_step(
            destination,
            after_backups(destination, state, seen.drop_last()),
            Some(seen.last()),
        ) is Copy {
            1nat
        } else {
            0nat
        }
    }
}

/// While a backup of a source is under way, every other backup of it is told
/// to wait, and the record stays as it is.
pub proof fn lemma_lock_keeps_others_out(
    destination: Seq<u8>,
    state: StateView,
    modified: Option<u128>,
)
    requires
        state.in_progress,
    ensures
        backup_step(destination, state, modified) is Busy,
        after_step(state, backup_step(destination, state, modified)) == state,
{
}

/// A backup that is told to make a copy holds the lock from then on, and
/// number and time of the record stay as they are until the copy is
/// reported. A backup that is told anything else leaves the record as it is.
pub proof fn lemma_step_takes_the_lock(
    destination: Seq<u8>,
    state: StateView,
    modified: Option<u128>,
)
    ensures
        match backup_step(destination, state, modified) {
            BackupStep::Copy(order) => !state.in_progress && after_step(
                state,
                backup_step(destination, state, modified),
            ) == state.acquired(),
            _ => after_step(state, backup_step(destination, state, modified)) == state,
        },
{
}

/// A backup of a source that was not modified after the time on record does
/// nothing: it is not told to make a copy, and the record stays as it is.
/// Reporting an order with such a time changes neither number nor time.
pub proof fn lemma_backup_of_unmodified_source(
    destination: Seq<u8>,
    state: StateView,
    modified: u128,
    number: u64,
)
    requires
        modified <= state.last_time,
    ensures
        !(backup_step(destination, state, Some(modified)) is Copy),
        after_step(state, backup_step(destination, state, Some(modified))) == state,
        after_backup(destination, state, modified) == state,
        state.advance(number, modified) == state,
{
}

/// In a store, a backup of a source that was not modified after the time on
/// record, or whose modification time could not be read, is not told to make
/// a copy, and the records stay as they are.
pub proof fn lemma_backup_of_unmodified_source_in_store(
    store: StateStoreView,
    path: Seq<u8>,
    modified: Option<u128>,
)
    requires
        store.destination is Some,
        store.records.contains_key(path),
        modified matches Some(time) ==> time <= store.records[path].last_time,
    ensures
        !(backup_step(store.destination->0, store.records[path], modified) is Copy),
        begun(store, path, modified) == store.records,
{
    assert(store.records.insert(path, store.records[path]) =~= store.records);
}

/// A second backup that sees the same modification time as the one before it
/// does nothing.
pub proof fn lemma_backup_is_idempotent(destination: Seq<u8>, state: StateView, modified: u128)
    ensures
        !(backup_step(destination, after_backup(destination, state, modified), Some(modified))
            is Copy),
        after_backup(destination, after_backup(destination, state, modified), modified)
            == after_backup(destination, state, modified),
{
}

/// A backup that makes a copy moves the time on record forward, to the
/// modification time it saw. It gives the copy the number on record if it is
/// the first, and the number after that of the newest copy if not. The lock is
/// free when it ends. A backup that makes no copy leaves the record as it was.
pub proof fn lemma_backup_advances(destination: Seq<u8>, state: StateView, modified: u128)
    ensures
        match backup_step(destination, state, Some(modified)) {
            BackupStep::Copy(order) => {
                let after = after_backup(destination, state, modified);
                &&& !after.in_progress
                &&& after.last_time == modified
                &&& after.last_time > state.last_time
                &&& after.number == order.number
                &&& after.number == if state.last_time > 0 {
                    state.number + 1
                } else {
                    state.number as int
                }
                &&& after.source_info == state.source_info
                &&& order.file_name == version_name(
                    state.source_info.prefix,
                    state.source_info.extension,
                    after.number,
                )
            },
            _ => after_backup(destination, state, modified) == state,
        },
{
}

/// The name under which a copy is made reads back as the number of the copy,
/// for a source whose stem and extension are the two parts of a file name.
pub proof fn lemma_copy_name_reads_back(
    destination: Seq<u8>,
    info: SourceInfoView,
    number: u64,
    last_time: u128,
    modified: u128,
)
    requires
        info.well_formed(),
    ensures
        due_copy(destination, info, number, last_time, modified) matches Some(order)
            ==> version_number(info.prefix, info.extension, order.file_name) == Some(order.number),
{
    if let Some(order) = due_copy(destination, info, number, last_time, modified) {
        lemma_version_round_trip(info.prefix, info.extension, order.number);
    }
}

/// Over any run of backups, one after the other, the time on record never goes
/// back, and the number on record is the number of the first copy made plus
/// the count of the copies made after it: no number is left out and none is
/// used twice. The first copy has the number on record if the record has no
/// time yet, and the number after it if not.
pub proof fn lemma_backups_count(destination: Seq<u8>, state: StateView, seen: Seq<u128>)
    ensures
        after_backups(destination, state, seen).source_info == state.source_info,
        after_backups(destination, state, seen).last_time >= state.last_time,
        copies_made(destination, state, seen) == 0 ==> after_backups(destination, state, seen)
            == state,
        copies_made(destination, state, seen) > 0 ==> !after_backups(
            destination,
            state,
            seen,
        ).in_progress,
        copies_made(destination, state, seen) > 0 ==> after_backups(
            destination,
            state,
            seen,
        ).last_time > state.last_time,
        copies_made(destination, state, seen) > 0 ==> after_backups(destination, state, seen).number
            == if state.last_time > 0 {
            state.number + copies_made(destination, state, seen)
        } else {
            state.number + copies_made(destination, state, seen) - 1
        },
    decreases seen.len(),
{
    if seen.len() > 0 {
        lemma_backups_count(destination, state, seen.drop_last());
        lemma_backup_advances(
            destination,
            after_backups(destination, state, seen.drop_last()),
            seen.last(),
        );
    }
}

/// A run of backups makes at most one copy for each of them.
pub proof fn lemma_copies_at_most(destination: Seq<u8>, state: StateView, seen: Seq<u128>)
    ensures
        copies_made(destination, state, seen) <= seen.len(),
    decreases seen.len(),
{
    if seen.len() > 0 {
        lemma_copies_at_most(destination, state, seen.drop_last());
    }
}

/// The time on record after a run of backups is at least each of the
/// modification times that were seen, if the lock was free at the start and the
/// numbers were not used up.
pub proof fn lemma_backups_reach(destination: Seq<u8>, state: StateView, seen: Seq<u128>, i: int)
    requires
        0 <= i < seen.len(),
        !state.in_progress,
        state.number + seen.len() < u64::MAX,
    ensures
        after_backups(destination, state, seen).last_time >= seen[i],
    decreases seen.len(),
{
    lemma_backups_count(destination, state, seen.drop_last());
    lemma_copies_at_most(destination, state, seen.drop_last());
    let before = after_backups(destination, state, seen.drop_last());
    lemma_backup_advances(destination, before, seen.last());
    if i < seen.len() - 1 {
        lemma_backups_reach(destination, state, seen.drop_last(), i);
        assert(seen.drop_last()[i] == seen[i]);
    }
}

/// Any number of backups that all saw one modification time come to what one
/// of them comes to: one copy if that time is later than the one on record,
/// and none if not.
pub proof fn lemma_backups_of_one_time(
    destination: Seq<u8>,
    state: StateView,
    seen: Seq<u128>,
    modified: u128,
)
    requires
        seen.len() > 0,
        forall|i: int| 0 <= i < seen.len() ==> seen[i] == modified,
    ensures
        after_backups(destination, state, seen) == after_backup(destination, state, modified),
        copies_made(destination, state, seen) == if backup_step(
            destination,
            state,
            Some(modified),
        ) is Copy {
            1nat
        } else {
            0nat
        },
    decreases seen.len(),
{
    assert(seen.last() == modified);
    if seen.len() == 1 {
        assert(after_backups(destination, state, seen.drop_last()) == state);
        assert(copies_made(destination, state, seen.drop_last()) == 0);
    } else {
        lemma_backups_of_one_time(destination, state, seen.drop_last(), modified);
        lemma_backup_is_idempotent(destination, state, modified);
    }
}

/// One call among those that many callers make for one source, in the order
/// in which the store takes them.
pub enum BackupCall {
    /// A caller that read the modification time `modified` asks what to do.
    Ask { modified: u128 },
    /// The caller that was told to make a copy has made it and reports it.
    Report,
}

/// Where the backups of one source stand after some calls: the record, the
/// copy that a caller was told to make and has not reported yet, and all the
/// copies that callers were told to make so far, in their order.
pub struct BackupRun {
    pub state: StateView,
    pub pending: Option<CopyOrderView>,
    pub orders: Seq<CopyOrderView>,
}

/// The start of a run: the record as it is, and no copy under way.
pub open spec fn run_start(state: StateView) -> BackupRun {
    BackupRun { state, pending: None, orders: Seq::empty() }
}

/// Where the backups of one source stand after one more call. A caller that
/// asks is answered as `backup_path` answers; one that is told to make a copy
/// holds the lock until it reports the copy, as through `complete_copy`.
pub open spec fn run_call(destination: Seq<u8>, run: BackupRun, call: BackupCall) -> BackupRun {
    match call {
        BackupCall::Ask { modified } => match backup_step(
            destination,
            run.state,
            Some(modified),
        ) {
            BackupStep::Copy(order) => BackupRun {
                state: after_step(run.state, BackupStep::Copy(order)),
                pending: Some(order),
                orders: run.orders.push(order),
            },
            _ => run,
        },
        BackupCall::Report => match run.pending {
            Some(order) => BackupRun {
                state: run.state.advance(order.number, order.time).released(),
                pending: None,
                orders: run.orders,
            },
            None => run,
        },
    }
}

/// Where the backups of one source stand after `calls`, taken in their
/// order, whichever callers made them.
pub open spec fn run_calls(destination: Seq<u8>, run: BackupRun, calls: Seq<BackupCall>) -> BackupRun
    decreases calls.len(),
{
    if calls.len() == 0 {
        run
    } else {
        run_call(destination, run_calls(destination, run, calls.drop_last()), calls.last())
    }
}

/// A run takes each call as the store takes it: a caller that asks changes the
/// record as `backup_path` does, and the report of the copy under way changes
/// it as `complete_copy` does.
pub proof fn lemma_run_follows_the_store(
    store: StateStoreView,
    path: Seq<u8>,
    run: BackupRun,
    modified: u128,
)
    requires
        store.destination is Some,
        store.records.contains_key(path),
        run.state == store.records[path],
    ensures
        run_call(store.destination->0, run, BackupCall::Ask { modified }).state == begun(
            store,
            path,
            Some(modified),
        )[path],
        run.pending matches Some(order) ==> run_call(
            store.destination->0,
            run,
            BackupCall::Report,
        ).state == store.records[path].advance(order.number, order.time).released(),
{
}

/// However the calls of many callers for one source fall into one another,
/// the copies are made one at a time and numbered one by one.
///
/// From a record whose lock is free: the lock is held exactly while a copy is
/// under way; the first copy has the number that follows the record and a
/// later time than the record; each further copy has the number after that of
/// the copy before it and a later time; each goes to the name of its number;
/// and once the last copy is reported the record holds its number and time.
pub proof fn lemma_calls_in_any_order(
    destination: Seq<u8>,
    state: StateView,
    calls: Seq<BackupCall>,
)
    requires
        !state.in_progress,
    ensures
        ({
            let run = run_calls(destination, run_start(state), calls);
            &&& run.state.in_progress == (run.pending is Some)
            &&& run.state.source_info == state.source_info
            &&& run.orders.len() == 0 ==> run.state == state
            &&& run.orders.len() > 0 ==> {
                &&& Some(run.orders[0].number) == next_number(state.number, state.last_time)
                &&& run.orders[0].time > state.last_time
                &&& run.pending matches Some(order) ==> order == run.orders.last()
                    && run.state.last_time < order.time
                &&& run.pending is None ==> run.state.number == run.orders.last().number
                    && run.state.last_time == run.orders.last().time
            }
            &&& forall|i: int|
                0 <= i < run.orders.len() - 1 ==> (#[trigger] run.orders[i + 1]).number
                    == run.orders[i].number + 1 && run.orders[i + 1].time > run.orders[i].time
            &&& forall|i: int|
                0 <= i < run.orders.len() ==> (#[trigger] run.orders[i]).directory == destination
                    && run.orders[i].time > state.last_time && run.orders[i].file_name
                    == version_name(
                    state.source_info.prefix,
                    state.source_info.extension,
                    run.orders[i].number,
                )
        }),
    decreases calls.len(),
{
    if calls.len() > 0 {
        lemma_calls_in_any_order(destination, state, calls.drop_last());
        let before = run_calls(destination, run_start(state), calls.drop_last());
        let run = run_calls(destination, run_start(state), calls);
        match calls.last() {
            BackupCall::Ask { modified } => {
                if let BackupStep::Copy(order) = backup_step(
                    destination,
                    before.state,
                    Some(modified),
                ) {
                    assert(run.orders == before.orders.push(order));
                    assert forall|i: int| 0 <= i < run.orders.len() - 1 implies (
                    #[trigger] run.orders[i + 1]).number == run.orders[i].number + 1
                        && run.orders[i + 1].time > run.orders[i].time by {
                        if i < before.orders.len() - 1 {
                            assert(run.orders[i + 1] == before.orders[i + 1]);
                            assert(run.orders[i] == before.orders[i]);
                        } else {
                            assert(run.orders[i] == before.orders.last());
                            assert(before.orders[i].time > state.last_time);
                        }
                    }
                    assert forall|i: int| 0 <= i < run.orders.len() implies (
                    #[trigger] run.orders[i]).directory == destination && run.orders[i].time
                        > state.last_time && run.orders[i].file_name == version_name(
                        state.source_info.prefix,
                        state.source_info.extension,
                        run.orders[i].number,
                    ) by {
                        if i < before.orders.len() {
                            assert(run.orders[i] == before.orders[i]);
                        } else if before.orders.len() > 0 {
                            assert(before.orders.last().time > state.last_time);
                        }
                    }
                    if before.orders.len() > 0 {
                        assert(run.orders[0] == before.orders[0]);
                    }
                }
            },
            BackupCall::Report => {},
        }
    }
}

/// Whether every caller that asks in `calls` has read the modification time
/// `modified`.
pub open spec fn all_ask_with(calls: Seq<BackupCall>, modified: u128) -> bool {
    forall|i: int|
        0 <= i < calls.len() ==> (#[trigger] calls[i] matches BackupCall::Ask { modified: seen }
            ==> seen == modified)
}

/// However many callers ask for a backup of one source, and however their
/// calls fall into one another: if all of them read one modification time,
/// later than the time on record, one copy is made, under the number that
/// follows the record, and no other. While that copy is under way, number and
/// time of the record stay as they were; once it is reported, the record holds
/// that number and that time, as after the backup of a single caller.
pub proof fn lemma_calls_of_one_time(
    destination: Seq<u8>,
    state: StateView,
    calls: Seq<BackupCall>,
    modified: u128,
)
    requires
        !state.in_progress,
        all_ask_with(calls, modified),
        due_copy(destination, state.source_info, state.number, state.last_time, modified) is Some,
    ensures
        ({
            let run = run_calls(destination, run_start(state), calls);
            let order = due_copy(
                destination,
                state.source_info,
                state.number,
                state.last_time,
                modified,
            )->0;
            &&& run.orders.len() <= 1
            &&& run.orders.len() == 0 ==> run.pending is None && run.state == state
            &&& run.orders.len() == 1 ==> run.orders[0] == order
            &&& run.orders.len() == 1 && run.pending is Some ==> run.pending == Some(order)
                && run.state == state.acquired()
            &&& run.orders.len() == 1 && run.pending is None ==> run.state == after_backup(
                destination,
                state,
                modified,
            )
        }),
    decreases calls.len(),
{
    if calls.len() > 0 {
        let earlier = calls.drop_last();
        assert forall|i: int| 0 <= i < earlier.len() implies (
        #[trigger] earlier[i] matches BackupCall::Ask { modified: seen } ==> seen == modified) by {
            assert(earlier[i] == calls[i]);
        }
        lemma_calls_of_one_time(destination, state, earlier, modified);
        let before = run_calls(destination, run_start(state), earlier);
        assert(calls[calls.len() - 1] == calls.last());
        match calls.last() {
            BackupCall::Ask { modified: seen } => {
                assert(seen == modified);
                if before.orders.len() == 0 {
                    assert(before.orders.push(
                        due_copy(
                            destination,
                            state.source_info,
                            state.number,
                            state.last_time,
                            modified,
                        )->0,
                    ).len() == 1);
                }
            },
            BackupCall::Report => {},
        }
    }
}

/// The records of a store, and the copy under way for the source at `path`,
/// after `calls` for that source were taken in their order: each caller that
/// asks is answered by `backup_path`, and the copy under way is reported
/// through `complete_copy`.
pub open spec fn store_calls(
    store: StateStoreView,
    path: Seq<u8>,
    pending: Option<CopyOrderView>,
    calls: Seq<BackupCall>,
) -> (Map<Seq<u8>, StateView>, Option<CopyOrderView>)
    decreases calls.len(),
{
    if calls.len() == 0 {
        (store.records, pending)
    } else {
        let (records, held) = store_calls(store, path, pending, calls.drop_last());
        match calls.last() {
            BackupCall::Ask { modified } => (
                begun(
                    StateStoreView { destination: store.destination, records },
                    path,
                    Some(modified),
                ),
                match backup_step(store.destination->0, records[path], Some(modified)) {
                    BackupStep::Copy(order) => Some(order),
                    _ => held,
                },
            ),
            BackupCall::Report => match held {
                Some(order) => (
                    records.insert(
                        path,
                        records[path].advance(order.number, order.time).released(),
                    ),
                    None,
                ),
                None => (records, held),
            },
        }
    }
}

/// In a store, the calls of many callers for one source change the record of
/// that source as a run of these calls says, and no other record.
pub proof fn lemma_store_calls(store: StateStoreView, path: Seq<u8>, calls: Seq<BackupCall>)
    requires
        store.destination is Some,
        store.records.contains_key(path),
    ensures
        ({
            let run = run_calls(store.destination->0, run_start(store.records[path]), calls);
            store_calls(store, path, None, calls) == (
                store.records.insert(path, run.state),
                run.pending,
            )
        }),
    decreases calls.len(),
{
    let run = run_calls(store.destination->0, run_start(store.records[path]), calls);
    if calls.len() == 0 {
        assert(store.records.insert(path, store.records[path]) =~= store.records);
    } else {
        lemma_store_calls(store, path, calls.drop_last());
        let before = run_calls(
            store.destination->0,
            run_start(store.records[path]),
            calls.drop_last(),
        );
        let records = store.records.insert(path, before.state);
        assert(records.insert(path, before.state) =~= records);
        assert(records.insert(path, run.state) =~= store.records.insert(path, run.state));
        match calls.last() {
            BackupCall::Ask { modified } => {
                assert(begun(
                    StateStoreView { destination: store.destination, records },
                    path,
                    Some(modified),
                ) =~= store.records.insert(path, run.state));
            },
            BackupCall::Report => {
                if let Some(order) = before.pending {
                    assert(records.insert(
                        path,
                        records[path].advance(order.number, order.time).released(),
                    ) =~= store.records.insert(path, run.state));
                }
            },
        }
    }
}

/// In a store, however many callers ask for a backup of one source and
/// however their calls fall into one another: if all of them read one
/// modification time, later than the time on record, they are told to make one
/// copy between them, and once it is reported the store holds the record of
/// that source as after the backup of a single caller, and every other record
/// as before.
pub proof fn lemma_store_calls_of_one_time(
    store: StateStoreView,
    path: Seq<u8>,
    calls: Seq<BackupCall>,
    modified: u128,
)
    requires
        store.destination is Some,
        store.records.contains_key(path),
        !store.records[path].in_progress,
        all_ask_with(calls, modified),
        due_copy(
            store.destination->0,
            store.records[path].source_info,
            store.records[path].number,
            store.records[path].last_time,
            modified,
        ) is Some,
    ensures
        ({
            let run = run_calls(store.destination->0, run_start(store.records[path]), calls);
            let after = store_calls(store, path, None, calls);
            &&& run.orders.len() <= 1
            &&& run.orders.len() == 0 ==> after == (store.records, None::<CopyOrderView>)
            &&& run.orders.len() == 1 && after.1 is Some ==> after.0 == store.records.insert(
                path,
                store.records[path].acquired(),
            )
            &&& run.orders.len() == 1 && after.1 is None ==> after.0 == store.records.insert(
                path,
                after_backup(store.destination->0, store.records[path], modified),
            )
        }),
{
    lemma_store_calls(store, path, calls);
    lemma_calls_of_one_time(store.destination->0, store.records[path], calls, modified);
    assert(store.records.insert(path, store.records[path]) =~= store.records);
}

/// After a restart the copies go on where they stopped. If the destination
/// directory holds copies of a source, each a regular file under the name of
/// its number, and no copy listed after the one with the highest number has a
/// later time, then the first backup that sees a later time than that copy's
/// makes the copy with the next number, under the name of that number.
pub proof fn lemma_backup_after_restart(
    destination: Seq<u8>,
    info: SourceInfoView,
    numbers: Seq<u64>,
    times: Seq<u128>,
    at: int,
    modified: u128,
)
    requires
        info.well_formed(),
        numbers.len() == times.len(),
        0 <= at < numbers.len(),
        forall|i: int| 0 <= i < numbers.len() && i != at ==> numbers[i] < numbers[at],
        forall|i: int| at < i < times.len() ==> times[i] <= times[at],
        times[at] > 0,
        numbers[at] < u64::MAX,
        modified > times[at],
    ensures
        ({
            let state = recovered_state(
                info,
                Seq::new(numbers.len(), |i: int| copy_entry(info, numbers[i], times[i])),
            );
            &&& backup_step(destination, state, Some(modified)) == BackupStep::Copy(
                CopyOrderView {
                    directory: destination,
                    file_name: version_name(
                        info.prefix,
                        info.extension,
                        (numbers[at] + 1) as u64,
                    ),
                    number: (numbers[at] + 1) as u64,
                    time: modified,
                },
            )
            &&& after_backup(destination, state, modified) == (StateView {
                source_info: info,
                number: (numbers[at] + 1) as u64,
                last_time: modified,
                in_progress: false,
            })
        }),
{
    lemma_recovery_of_copies(info, numbers, times, at);
}

} // verus!
