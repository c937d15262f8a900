//! Updating the record of one watched file.

use crate::naming::copy_bytes;
use crate::state::error::ProcessError;
use crate::state::structures::SourceInfo;
use crate::state::structures::State;
use crate::state::StateStore;
use vstd::prelude::*;

verus! {

/// Under the lock of the record kept under `path`, offers the record the pair
/// that `update_fn` computes from the destination directory and the record's
/// contents.
///
/// Fails with `NoDestination` if no destination has been set, with
/// `NoSuchPath` if there is no record under `path`, and with `InProgress` if
/// the lock of the record is held; the store is then left as it was, and
/// `update_fn` is not called. Else the pair replaces number and time of the
/// record if its time is later than the recorded one, and every other record
/// stays as it was.
pub fn update_state<F>(store: &mut StateStore, path: &Vec<u8>, update_fn: F) -> (r: Result<
    (),
    ProcessError,
>) where F: Fn(&Vec<u8>, &SourceInfo, u64, u128) -> (u64, u128)
    requires
        forall|destination: Vec<u8>, info: SourceInfo|
            old(store)@.destination == Some(destination@) && old(store)@.records.contains_key(
                path@,
            ) && !old(store)@.records[path@].in_progress && info@ == old(
                store,
            )@.records[path@].source_info ==> #[trigger] call_requires(
                update_fn,
                (
                    &destination,
                    &info,
                    old(store)@.records[path@].number,
                    old(store)@.records[path@].last_time,
                ),
            ),
    ensures
        final(store)@.destination == old(store)@.destination,
        match r {
            Err(ProcessError::NoDestination) => old(store)@.destination is None && final(store)@
                == old(store)@,
            Err(ProcessError::NoSuchPath { path: missing }) => old(store)@.destination is Some
                && !old(store)@.records.contains_key(path@) && missing@ == path@ && final(store)@
                == old(store)@,
            Err(ProcessError::InProgress { path: held }) => old(store)@.destination is Some && old(
                store,
            )@.records.contains_key(path@) && old(store)@.records[path@].in_progress && held@
                == path@ && final(store)@ == old(store)@,
            Ok(()) => old(store)@.destination is Some && old(store)@.records.contains_key(path@)
                && !old(store)@.records[path@].in_progress && (exists|
                destination: Vec<u8>,
                info: SourceInfo,
                number: u64,
                last_time: u128,
            |
                old(store)@.destination == Some(destination@) && info@ == old(
                    store,
                )@.records[path@].source_info && #[trigger] call_ensures(
                    update_fn,
                    (
                        &destination,
                        &info,
                        old(store)@.records[path@].number,
                        old(store)@.records[path@].last_time,
                    ),
                    (number, last_time),
                ) && final(store)@.records == old(store)@.records.insert(
                    path@,
                    old(store)@.records[path@].advance(number, last_time),
                )),
        },
{
    let destination: Vec<u8> = match store.destination() {
        Some(destination) => destination,
        None => {
            return Err(ProcessError::NoDestination);
        },
    };
    match store.get(path) {
        Some(state) => {
            if state.in_progress() {
                return Err(ProcessError::InProgress { path: copy_bytes(path.as_slice()) });
            }
        },
        None => {
            return Err(ProcessError::NoSuchPath { path: copy_bytes(path.as_slice()) });
        },
    }
    let directory: &Vec<u8> = &destination;
    let offer: &F = &update_fn;
    let update = |state: &State| -> (after: State)
        requires
            !state@.in_progress,
            forall|info: SourceInfo|
                info@ == state@.source_info ==> #[trigger] call_requires(
                    *offer,
                    (directory, &info, state@.number, state@.last_time),
                ),
        ensures
            exists|info: SourceInfo, number: u64, last_time: u128|
                info@ == state@.source_info && #[trigger] call_ensures(
                    *offer,
                    (directory, &info, state@.number, state@.last_time),
                    (number, last_time),
                ) && after@ == state@.advance(number, last_time),
        {
            let mut next = state.duplicate();
            next.update(directory, offer);
            next
        };
    store.update(copy_bytes(path.as_slice()), update);
    Ok(())
}

} // verus!
