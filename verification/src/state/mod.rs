//! The records of the watched files and the store that holds them.

pub mod error;
pub mod init;
pub mod structures;
pub mod update;

pub use self::error::ProcessError;
pub use self::error::StateInitializeError;
pub use self::init::initialize_state;
pub use self::init::maximum_known_value;
pub use self::init::maximum_known_values;
pub use self::init::DestinationEntry;
pub use self::init::DestinationEntryView;
pub use self::init::EntryKind;
pub use self::structures::SourceInfo;
pub use self::structures::SourceInfoView;
pub use self::structures::SourcePath;
pub use self::structures::SourcePathView;
pub use self::structures::State;
pub use self::structures::StateView;
pub use self::update::update_state;

use crate::naming::copy_bytes;
use vstd::prelude::*;

verus! {

/// `papaya::HashMap`, the map that holds the records. Nothing is known of
/// what is inside a value of it but through `map_records`.
#[verifier::external_type_specification]
#[verifier::external_body]
#[verifier::reject_recursive_types(K)]
#[verifier::reject_recursive_types(V)]
#[verifier::reject_recursive_types(S)]
pub struct ExPapayaHashMap<K, V, S>(papaya::HashMap<K, V, S>);

/// The records that a map holds, each under the path of its file. The map is
/// never shared: what it holds changes only through the calls below.
pub uninterp spec fn map_records(map: papaya::HashMap<Vec<u8>, State>) -> Map<Seq<u8>, StateView>;

/// `papaya::HashMap::new`: a map that holds nothing.
#[verifier::external_body]
fn new_map() -> (map: papaya::HashMap<Vec<u8>, State>)
    ensures
        map_records(map) == (Map::<Seq<u8>, StateView>::empty()),
{
    papaya::HashMap::new()
}

/// `papaya::HashMap::clear` through a pinned reference: nothing is left in the
/// map.
#[verifier::external_body]
fn clear_map(map: &mut papaya::HashMap<Vec<u8>, State>)
    ensures
        map_records(*final(map)) == (Map::<Seq<u8>, StateView>::empty()),
{
    map.pin().clear();
}

/// `papaya::HashMap::insert` through a pinned reference: the map holds `state`
/// under `path`, in place of what it held there, and everything else as
/// before.
#[verifier::external_body]
fn insert_record(map: &mut papaya::HashMap<Vec<u8>, State>, path: Vec<u8>, state: State)
    ensures
        map_records(*final(map)) == map_records(*old(map)).insert(path@, state@),
{
    map.pin().insert(path, state);
}

/// `papaya::HashMap::get` through a pinned reference, and a copy of what it
/// found: the record that the map holds under `path`, if it holds one.
#[verifier::external_body]
fn find_record(map: &papaya::HashMap<Vec<u8>, State>, path: &Vec<u8>) -> (found: Option<State>)
    ensures
        match found {
            Some(state) => map_records(*map).contains_key(path@) && state@ == map_records(
                *map,
            )[path@],
            None => !map_records(*map).contains_key(path@),
        },
{
    map.pin().get(path).map(|state| state.duplicate())
}

/// `papaya::HashMap::update` through a pinned reference. If the map holds a
/// record under `path`, `update` is applied to it and the map holds the result
/// in its place; the call then returns `true`. Else the map is left as it was
/// and the call returns `false`.
#[verifier::external_body]
fn update_record<F: Fn(&State) -> State>(
    map: &mut papaya::HashMap<Vec<u8>, State>,
    path: Vec<u8>,
    update: F,
) -> (found: bool)
    requires
        forall|state: State|
            map_records(*old(map)).contains_key(path@) && state@ == map_records(*old(map))[path@]
                ==> #[trigger] call_requires(update, (&state,)),
    ensures
        found == map_records(*old(map)).contains_key(path@),
        !found ==> map_records(*final(map)) == map_records(*old(map)),
        found ==> (exists|before: State, after: State|
            before@ == map_records(*old(map))[path@] && #[trigger] call_ensures(
                update,
                (&before,),
                after,
            ) && map_records(*final(map)) == map_records(*old(map)).insert(path@, after@)),
{
    map.pin().update(path, update).is_some()
}

/// The records of all watched files, each under the absolute path of its file,
/// and the destination directory that the copies go to.
pub struct StateStore {
    states: papaya::HashMap<Vec<u8>, State>,
    destination: Option<Vec<u8>>,
}

/// A `StateStore` as mathematical values.
pub struct StateStoreView {
    /// The destination directory, once it has been set.
    pub destination: Option<Seq<u8>>,
    /// The record of each watched file, under the path of the file.
    pub records: Map<Seq<u8>, StateView>,
}

impl View for StateStore {
    type V = StateStoreView;

    closed spec fn view(&self) -> StateStoreView {
        StateStoreView {
            destination: match self.destination {
                Some(d) => Some(d@),
                None => None,
            },
            records: map_records(self.states),
        }
    }
}

impl StateStore {
    /// A store without records and without a destination.
    pub fn new() -> (store: StateStore)
        ensures
            store@.destination is None,
            store@.records == Map::<Seq<u8>, StateView>::empty(),
    {
        StateStore { states: new_map(), destination: None }
    }

    /// The destination directory, once it has been set.
    pub fn destination(&self) -> (r: Option<Vec<u8>>)
        ensures
            match r {
                Some(d) => self@.destination == Some(d@),
                None => self@.destination is None,
            },
    {
        match &self.destination {
            Some(d) => Some(copy_bytes(d.as_slice())),
            None => None,
        }
    }

    /// The record that is kept under `path`, if there is one.
    pub fn get(&self, path: &Vec<u8>) -> (r: Option<State>)
        ensures
            match r {
                Some(state) => self@.records.contains_key(path@) && state@ == self@.records[path@],
                None => !self@.records.contains_key(path@),
            },
    {
        find_record(&self.states, path)
    }

    /// Sets the destination directory, if none has been set. Returns whether
    /// it was set by this call.
    pub(crate) fn set_destination(&mut self, destination: &Vec<u8>) -> (set: bool)
        ensures
            set == (old(self)@.destination is None),
            final(self)@.records == old(self)@.records,
            final(self)@.destination == if set {
                Some(destination@)
            } else {
                old(self)@.destination
            },
    {
        if self.destination.is_some() {
            false
        } else {
            self.destination = Some(copy_bytes(destination.as_slice()));
            true
        }
    }

    /// Removes all records.
    pub(crate) fn clear(&mut self)
        ensures
            final(self)@.destination == old(self)@.destination,
            final(self)@.records == Map::<Seq<u8>, StateView>::empty(),
    {
        clear_map(&mut self.states);
    }

    /// Keeps `state` under `path`, in place of what was kept there.
    pub(crate) fn insert(&mut self, path: Vec<u8>, state: State)
        ensures
            final(self)@.destination == old(self)@.destination,
            final(self)@.records == old(self)@.records.insert(path@, state@),
    {
        insert_record(&mut self.states, path, state);
    }

    /// Applies `update` to the record under `path` and keeps the result in
    /// its place. Returns whether there was such a record.
    pub(crate) fn update<F: Fn(&State) -> State>(&mut self, path: Vec<u8>, update: F) -> (found:
        bool)
        requires
            forall|state: State|
                old(self)@.records.contains_key(path@) && state@ == old(self)@.records[path@]
                    ==> #[trigger] call_requires(update, (&state,)),
        ensures
            final(self)@.destination == old(self)@.destination,
            found == old(self)@.records.contains_key(path@),
            !found ==> final(self)@.records == old(self)@.records,
            found ==> (exists|before: State, after: State|
                before@ == old(self)@.records[path@] && #[trigger] call_ensures(
                    update,
                    (&before,),
                    after,
                ) && final(self)@.records == old(self)@.records.insert(path@, after@)),
    {
        update_record(&mut self.states, path, update)
    }
}

} // verus!
