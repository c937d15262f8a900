//! Setting the records up from what the destination directory holds.

use crate::copy::next_number;
use crate::naming::copy_bytes;
use crate::naming::lemma_version_round_trip;
use crate::naming::name_extension;
use crate::naming::name_stem;
use crate::naming::read_version_number;
use crate::naming::version_lead;
use crate::naming::version_name;
use crate::naming::version_number;
use crate::naming::UNDERSCORE;
use crate::state::error::StateInitializeError;
use crate::state::structures::SourceInfo;
use crate::state::structures::SourceInfoView;
use crate::state::structures::SourcePath;
use crate::state::structures::State;
use crate::state::structures::StateView;
use crate::state::StateStore;
use vstd::prelude::*;
use vstd::utf8::valid_utf8;

verus! {

/// What kind of thing a directory entry is.
#[derive(Debug, Clone, Copy, PartialEq, Eq)]
pub enum EntryKind {
    /// A regular file.
    File,
    /// A directory, a link, or anything else that is not a regular file.
    Other,
    /// The kind could not be read.
    Unknown,
}

/// One entry of the destination directory.
#[derive(Debug)]
pub struct DestinationEntry {
    /// The name of the entry.
    pub file_name: Vec<u8>,
    /// What kind of thing the entry is.
    pub kind: EntryKind,
    /// The modification time of the entry in nanoseconds since the epoch, or
    /// `None` if it could not be read.
    pub modified: Option<u128>,
}

/// A `DestinationEntry` as mathematical values.
pub struct DestinationEntryView {
    pub file_name: Seq<u8>,
    pub kind: EntryKind,
    pub modified: Option<u128>,
}

impl View for DestinationEntry {
    type V = DestinationEntryView;

    open spec fn view(&self) -> DestinationEntryView {
        DestinationEntryView {
            file_name: self.file_name@,
            kind: self.kind,
            modified: self.modified,
        }
    }
}

/// The entries of a listing as mathematical values.
pub open spec fn listing_view(entries: Seq<DestinationEntry>) -> Seq<DestinationEntryView> {
    entries.map_values(|e: DestinationEntry| e@)
}

/// The number that an entry of another kind than a regular file keeps free:
/// the number after its own, or its own if it is the largest there is.
pub open spec fn reserved_number(value: u64) -> u64 {
    if value < u64::MAX {
        (value + 1) as u64
    } else {
        value
    }
}

/// The number and the time that the scan of a listing holds after `entry`, if
/// it held `mark` before.
///
/// An entry counts if its kind is known and its name is that of a copy of the
/// source. One that is no regular file sets the number to the one after its
/// own and leaves the time. A regular file whose time is known sets both number
/// and time to its own if its time is later than the one held or its number is
/// not below the one held.
pub open spec fn scan_entry(info: SourceInfoView, mark: (u64, u128), entry: DestinationEntryView) -> (
    u64,
    u128,
) {
    match (entry.kind, version_number(info.prefix, info.extension, entry.file_name)) {
        (EntryKind::Unknown, _) => mark,
        (_, None) => mark,
        (EntryKind::Other, Some(value)) => (reserved_number(value), mark.1),
        (EntryKind::File, Some(value)) => match entry.modified {
            Some(time) => if time > mark.1 || value >= mark.0 {
                (value, time)
            } else {
                mark
            },
            None => mark,
        },
    }
}

/// The number and the time that the scan of `entries` ends with. It starts
/// with 0 and 0 and takes the entries in their order.
pub open spec fn scan_entries(info: SourceInfoView, entries: Seq<DestinationEntryView>) -> (
    u64,
    u128,
)
    decreases entries.len(),
{
    if entries.len() == 0 {
        (0, 0)
    } else {
        scan_entry(info, scan_entries(info, entries.drop_last()), entries.last())
    }
}

/// The record that a source starts with, given what the destination directory
/// holds: the number and the time that the scan ended with, and a free lock.
///
/// A scan that found no time leaves the time at 0, which says that no copy
/// has been made yet. The number it ends with then is 0, or the number that an
/// entry keeps free, and the first copy takes that number.
pub open spec fn recovered_state(info: SourceInfoView, entries: Seq<DestinationEntryView>) -> StateView {
    let mark = scan_entries(info, entries);
    StateView { source_info: info, number: mark.0, last_time: mark.1, in_progress: false }
}

/// `std::str::from_utf8`: whether `bytes` is UTF-8 text.
#[verifier::external_body]
fn is_utf8(bytes: &[u8]) -> (r: bool)
    ensures
        r == valid_utf8(bytes@),
{
    std::str::from_utf8(bytes).is_ok()
}

/// Works out the record that one source starts with.
///
/// `listing` is what reading the destination directory gave. Fails with
/// `UTF8ConversionError` if the stem of the source, followed by `_`, is not
/// UTF-8 text; else with `ReadDestination` if the directory could not be read.
pub fn maximum_known_value(
    destination: &Vec<u8>,
    source: &Vec<u8>,
    source_info: &SourceInfo,
    listing: Result<&Vec<DestinationEntry>, std::io::Error>,
) -> (r: Result<State, StateInitializeError>)
    ensures
        match r {
            Ok(state) => valid_utf8(version_lead(source_info@.prefix)) && (listing matches Ok(
                entries,
            ) && state@ == recovered_state(source_info@, listing_view(entries@))),
            Err(StateInitializeError::UTF8ConversionError { source: named }) => !valid_utf8(
                version_lead(source_info@.prefix),
            ) && named@ == source@,
            Err(StateInitializeError::ReadDestination { folder, error }) => valid_utf8(
                version_lead(source_info@.prefix),
            ) && listing == Err::<&Vec<DestinationEntry>, std::io::Error>(error) && folder@
                == destination@,
            Err(_) => false,
        },
{
    let mut prefix_with_underscore: Vec<u8> = copy_bytes(source_info.prefix.as_slice());
    prefix_with_underscore.push(UNDERSCORE);
    if !is_utf8(prefix_with_underscore.as_slice()) {
        return Err(
            StateInitializeError::UTF8ConversionError { source: copy_bytes(source.as_slice()) },
        );
    }
    let entries = match listing {
        Ok(entries) => entries,
        Err(error) => {
            return Err(
                StateInitializeError::ReadDestination {
                    folder: copy_bytes(destination.as_slice()),
                    error,
                },
            );
        },
    };
    let ghost seen = listing_view(entries@);
    let mut number: u64 = 0;
    let mut last_time: u128 = 0;
    let mut i: usize = 0;
    while i < entries.len()
        invariant
            i <= entries.len(),
            seen == listing_view(entries@),
            (number, last_time) == scan_entries(source_info@, seen.subrange(0, i as int)),
        decreases entries.len() - i,
    {
        let entry = &entries[i];
        proof {
            assert(seen.subrange(0, i + 1).drop_last() =~= seen.subrange(0, i as int));
            assert(seen.subrange(0, i + 1).last() == entry@);
        }
        let value_num = read_version_number(
            source_info.prefix.as_slice(),
            &source_info.extension,
            entry.file_name.as_slice(),
        );
        match (entry.kind, value_num, entry.modified) {
            (EntryKind::Other, Some(value), _) => {
                number = if value < u64::MAX {
                    value + 1
                } else {
                    value
                };
            },
            (EntryKind::File, Some(value), Some(time)) => {
                if time > last_time || value >= number {
                    number = value;
                    last_time = time;
                }
            },
            _ => {},
        }
        i += 1;
    }
    assert(seen.subrange(0, i as int) =~= seen);
    Ok(State::new(source_info.duplicate(), number, last_time))
}

/// Why the records cannot be set up for a source.
pub enum SourceFault {
    /// The path of the source does not end in a file name.
    NoFileStem,
    /// The stem of the source, followed by `_`, is not UTF-8 text.
    NotText,
    /// The destination directory could not be read.
    Unreadable,
}

/// What the names of the copies of a source with file name `name` are made of.
pub open spec fn source_info_of(name: Seq<u8>) -> SourceInfoView {
    SourceInfoView { prefix: name_stem(name), extension: name_extension(name) }
}

/// Why the records cannot be set up for `source`, if they cannot. The three
/// reasons are looked for in the order in which `SourceFault` lists them.
pub open spec fn source_fault(source: SourcePath, listing_ok: bool) -> Option<SourceFault> {
    match source.file_name {
        None => Some(SourceFault::NoFileStem),
        Some(name) => if !valid_utf8(version_lead(name_stem(name@))) {
            Some(SourceFault::NotText)
        } else if !listing_ok {
            Some(SourceFault::Unreadable)
        } else {
            None
        },
    }
}

/// `sources[i]` is the first of the sources for which the records cannot be
/// set up.
pub open spec fn is_first_fault(sources: Seq<SourcePath>, listing_ok: bool, i: int) -> bool {
    &&& 0 <= i < sources.len()
    &&& source_fault(sources[i], listing_ok) is Some
    &&& forall|j: int| 0 <= j < i ==> (#[trigger] source_fault(sources[j], listing_ok)) is None
}

/// The records can be set up for all sources.
pub open spec fn faultless(sources: Seq<SourcePath>, listing_ok: bool) -> bool {
    forall|j: int|
        0 <= j < sources.len() ==> (#[trigger] source_fault(sources[j], listing_ok)) is None
}

/// Whether `error` reports the fault of `source`, with the path of the source
/// or, for an unreadable destination, with the path of the destination and the
/// cause that the listing gave.
pub open spec fn reports(
    error: StateInitializeError,
    source: SourcePath,
    destination: Seq<u8>,
    listing: Result<Vec<DestinationEntry>, std::io::Error>,
) -> bool {
    match error {
        StateInitializeError::NoFileStem { source: named } => source_fault(source, listing is Ok)
            == Some(SourceFault::NoFileStem) && named@ == source.path@,
        StateInitializeError::UTF8ConversionError { source: named } => source_fault(
            source,
            listing is Ok,
        ) == Some(SourceFault::NotText) && named@ == source.path@,
        StateInitializeError::ReadDestination { folder, error: cause } => source_fault(
            source,
            listing is Ok,
        ) == Some(SourceFault::Unreadable) && folder@ == destination && listing == Err::<
            Vec<DestinationEntry>,
            std::io::Error,
        >(cause),
        StateInitializeError::DoubleInitialization => false,
    }
}

/// The entries that a listing gave, or none if the directory could not be
/// read.
pub open spec fn listed(listing: Result<Vec<DestinationEntry>, std::io::Error>) -> Seq<
    DestinationEntryView,
> {
    match listing {
        Ok(entries) => listing_view(entries@),
        Err(_) => Seq::empty(),
    }
}

/// The record that a source whose path ends in a file name starts with, given
/// the entries of the destination directory.
pub open spec fn recovered_for(source: SourcePath, entries: Seq<DestinationEntryView>) -> StateView
    recommends
        source.file_name is Some,
{
    recovered_state(source_info_of(source.file_name->0@), entries)
}

/// The records that the sources start with, each under the path of its
/// source. Of two sources with one path the later one counts.
pub open spec fn recovered_records(sources: Seq<SourcePath>, entries: Seq<DestinationEntryView>) -> Map<
    Seq<u8>,
    StateView,
>
    decreases sources.len(),
{
    if sources.len() == 0 {
        Map::empty()
    } else {
        recovered_records(sources.drop_last(), entries).insert(
            sources.last().path@,
            recovered_for(sources.last(), entries),
        )
    }
}

/// Works out the record that each source starts with, in the order of the
/// sources.
///
/// Fails at the first source for which that cannot be done, with the error
/// that reports its fault.
pub fn maximum_known_values(
    sources: &Vec<SourcePath>,
    destination: &Vec<u8>,
    listing: Result<Vec<DestinationEntry>, std::io::Error>,
) -> (r: Result<Vec<(Vec<u8>, State)>, StateInitializeError>)
    ensures
        match r {
            Ok(states) => {
                &&& faultless(sources@, listing is Ok)
                &&& states.len() == sources.len()
                &&& forall|i: int|
                    0 <= i < sources.len() ==> (#[trigger] states[i]).0@ == sources[i].path@
                        && states[i].1@ == recovered_for(sources[i], listed(listing))
            },
            Err(error) => exists|i: int|
                is_first_fault(sources@, listing is Ok, i) && reports(
                    error,
                    #[trigger] sources[i],
                    destination@,
                    listing,
                ),
        },
{
    let (entries, mut failure): (Option<Vec<DestinationEntry>>, Option<std::io::Error>) =
        match listing {
        Ok(entries) => (Some(entries), None),
        Err(error) => (None, Some(error)),
    };
    let mut result: Vec<(Vec<u8>, State)> = Vec::new();
    let mut i: usize = 0;
    while i < sources.len()
        invariant
            i <= sources.len(),
            result.len() == i,
            match listing {
                Ok(listed_entries) => entries == Some(listed_entries) && failure is None,
                Err(error) => entries is None && failure == Some(error),
            },
            forall|j: int| 0 <= j < i ==> (#[trigger] source_fault(sources[j], listing is Ok)) is None,
            forall|j: int|
                0 <= j < i ==> (#[trigger] result[j]).0@ == sources[j].path@ && result[j].1@
                    == recovered_for(sources[j], listed(listing)),
        decreases sources.len() - i,
    {
        let source = &sources[i];
        let source_info = match SourceInfo::try_from(source) {
            Ok(source_info) => source_info,
            Err(error) => {
                assert(is_first_fault(sources@, listing is Ok, i as int));
                assert(reports(error, sources[i as int], destination@, listing));
                return Err(error);
            },
        };
        let current: Result<&Vec<DestinationEntry>, std::io::Error> = match &entries {
            Some(listed_entries) => Ok(listed_entries),
            None => Err(failure.take().unwrap()),
        };
        match maximum_known_value(destination, &source.path, &source_info, current) {
            Ok(state) => {
                result.push((copy_bytes(source.path.as_slice()), state));
            },
            Err(error) => {
                assert(is_first_fault(sources@, listing is Ok, i as int));
                assert(reports(error, sources[i as int], destination@, listing));
                return Err(error);
            },
        }
        i += 1;
    }
    Ok(result)
}

/// Sets the store up: the destination directory is fixed, and the records are
/// replaced by those that the sources start with, given what the destination
/// directory holds.
///
/// `listing` is what reading the destination directory gave. Fails with
/// `DoubleInitialization` if the store has a destination already, and leaves
/// the store as it was. Else the destination is set, and the call fails at the
/// first source for which no record can be worked out, leaving the records as
/// they were.
pub fn initialize_state(
    store: &mut StateStore,
    sources: &Vec<SourcePath>,
    destination: &Vec<u8>,
    listing: Result<Vec<DestinationEntry>, std::io::Error>,
) -> (r: Result<(), StateInitializeError>)
    ensures
        old(store)@.destination is Some ==> (r matches Err(
            StateInitializeError::DoubleInitialization,
        ) && final(store)@ == old(store)@),
        old(store)@.destination is None ==> final(store)@.destination == Some(destination@)
            && match r {
            Ok(()) => faultless(sources@, listing is Ok) && final(store)@.records
                == recovered_records(sources@, listed(listing)),
            Err(error) => final(store)@.records == old(store)@.records && exists|i: int|
                is_first_fault(sources@, listing is Ok, i) && reports(
                    error,
                    #[trigger] sources[i],
                    destination@,
                    listing,
                ),
        },
{
    if !store.set_destination(destination) {
        return Err(StateInitializeError::DoubleInitialization);
    }
    let result = match maximum_known_values(sources, destination, listing) {
        Ok(result) => result,
        Err(error) => {
            return Err(error);
        },
    };
    store.clear();
    let ghost entries = listed(listing);
    let mut i: usize = 0;
    while i < result.len()
        invariant
            i <= result.len() == sources.len(),
            store@.destination == Some(destination@),
            store@.records == recovered_records(sources@.subrange(0, i as int), entries),
            forall|j: int|
                0 <= j < sources.len() ==> (#[trigger] result[j]).0@ == sources[j].path@
                    && result[j].1@ == recovered_for(sources[j], entries),
        decreases result.len() - i,
    {
        proof {
            assert(sources@.subrange(0, i + 1).drop_last() =~= sources@.subrange(0, i as int));
            assert(sources@.subrange(0, i + 1).last() == sources[i as int]);
        }
        let path = copy_bytes(result[i].0.as_slice());
        let state = result[i].1.duplicate();
        store.insert(path, state);
        i += 1;
    }
    assert(sources@.subrange(0, i as int) =~= sources@);
    Ok(())
}

/// Whether `entry` cannot raise the number that a scan holds above `limit`: it
/// does not count, or it is a regular file with a number up to `limit`, or it is
/// something else with a number below `limit`.
pub open spec fn stays_within(info: SourceInfoView, entry: DestinationEntryView, limit: u64) -> bool {
    match (entry.kind, version_number(info.prefix, info.extension, entry.file_name)) {
        (EntryKind::Unknown, _) => true,
        (_, None) => true,
        (EntryKind::Other, Some(value)) => value < limit,
        (EntryKind::File, Some(value)) => value <= limit,
    }
}

/// Whether `entry` leaves a scan alone that holds `number` and `time`: it does
/// not count, or it is a regular file with a lower number and no later time.
pub open spec fn is_older(
    info: SourceInfoView,
    entry: DestinationEntryView,
    number: u64,
    time: u128,
) -> bool {
    match (entry.kind, version_number(info.prefix, info.extension, entry.file_name)) {
        (EntryKind::Unknown, _) => true,
        (_, None) => true,
        (EntryKind::Other, Some(_)) => false,
        (EntryKind::File, Some(value)) => match entry.modified {
            Some(modified) => value < number && modified <= time,
            None => true,
        },
    }
}

/// A regular file that is copy `number` of a source, last modified at `time`.
pub open spec fn copy_entry(info: SourceInfoView, number: u64, time: u128) -> DestinationEntryView {
    DestinationEntryView {
        file_name: version_name(info.prefix, info.extension, number),
        kind: EntryKind::File,
        modified: Some(time),
    }
}

/// An entry that matches the names of the copies and is no regular file sets
/// the number of the scan to the one after its own and leaves the time. If the
/// directory lists it last, the record starts with that number, whether a
/// time was found or not, and the next copy gets a number above that of the
/// entry.
pub proof fn lemma_other_entry_reserves(
    info: SourceInfoView,
    entries: Seq<DestinationEntryView>,
    entry: DestinationEntryView,
    value: u64,
)
    requires
        entry.kind == EntryKind::Other,
        version_number(info.prefix, info.extension, entry.file_name) == Some(value),
    ensures
        scan_entries(info, entries.push(entry)) == (
            reserved_number(value),
            scan_entries(info, entries).1,
        ),
        value < u64::MAX ==> scan_entries(info, entries.push(entry)).0 == value + 1,
        value < u64::MAX ==> {
            let state = recovered_state(info, entries.push(entry));
            &&& state.number == value + 1
            &&& state.last_time == scan_entries(info, entries).1
            &&& match next_number(state.number, state.last_time) {
                Some(next) => next > value,
                None => true,
            }
        },
{
    assert(entries.push(entry).drop_last() =~= entries);
    assert(entries.push(entry).last() == entry);
}

/// A scan of entries that all stay within a limit ends with a number within
/// that limit.
pub proof fn lemma_scan_stays_within(
    info: SourceInfoView,
    entries: Seq<DestinationEntryView>,
    limit: u64,
)
    requires
        forall|i: int| 0 <= i < entries.len() ==> stays_within(info, #[trigger] entries[i], limit),
    ensures
        scan_entries(info, entries).0 <= limit,
    decreases entries.len(),
{
    if entries.len() > 0 {
        assert forall|i: int| 0 <= i < entries.drop_last().len() implies stays_within(
            info,
            #[trigger] entries.drop_last()[i],
            limit,
        ) by {
            assert(entries.drop_last()[i] == entries[i]);
        }
        lemma_scan_stays_within(info, entries.drop_last(), limit);
        assert(stays_within(info, entries.last(), limit));
    }
}

/// The scan ends with the number and the time of the regular file
/// `entries[at]`, if no entry before it can raise the number above its number,
/// and every entry after it that counts is a regular file with a lower number
/// and no later time.
pub proof fn lemma_scan_finds_newest(
    info: SourceInfoView,
    entries: Seq<DestinationEntryView>,
    at: int,
    number: u64,
    time: u128,
)
    requires
        0 <= at < entries.len(),
        entries[at].kind == EntryKind::File,
        entries[at].modified == Some(time),
        version_number(info.prefix, info.extension, entries[at].file_name) == Some(number),
        forall|i: int| 0 <= i < at ==> stays_within(info, #[trigger] entries[i], number),
        forall|i: int| at < i < entries.len() ==> is_older(info, #[trigger] entries[i], number, time),
    ensures
        scan_entries(info, entries) == (number, time),
    decreases entries.len(),
{
    let before = entries.drop_last();
    if at == entries.len() - 1 {
        assert forall|i: int| 0 <= i < before.len() implies stays_within(
            info,
            #[trigger] before[i],
            number,
        ) by {
            assert(before[i] == entries[i]);
        }
        lemma_scan_stays_within(info, before, number);
    } else {
        assert(before[at] == entries[at]);
        assert forall|i: int| 0 <= i < at implies stays_within(info, #[trigger] before[i], number) by {
            assert(before[i] == entries[i]);
        }
        assert forall|i: int| at < i < before.len() implies is_older(
            info,
            #[trigger] before[i],
            number,
            time,
        ) by {
            assert(before[i] == entries[i]);
        }
        lemma_scan_finds_newest(info, before, at, number, time);
        assert(is_older(info, entries.last(), number, time));
    }
}

/// A destination directory that holds copies of a source, each a regular file
/// under the name of its number, gives the source the highest of these numbers
/// and the time of the copy with that number, if no copy that is listed after
/// that one has a later time.
///
/// `numbers` and `times` give the number and the time of each copy in the order
/// of the listing, and `at` is the place of the copy with the highest number.
pub proof fn lemma_recovery_of_copies(
    info: SourceInfoView,
    numbers: Seq<u64>,
    times: Seq<u128>,
    at: int,
)
    requires
        info.well_formed(),
        numbers.len() == times.len(),
        0 <= at < numbers.len(),
        forall|i: int| 0 <= i < numbers.len() && i != at ==> numbers[i] < numbers[at],
        forall|i: int| at < i < times.len() ==> times[i] <= times[at],
    ensures
        recovered_state(
            info,
            Seq::new(numbers.len(), |i: int| copy_entry(info, numbers[i], times[i])),
        ) == (StateView {
            source_info: info,
            number: numbers[at],
            last_time: times[at],
            in_progress: false,
        }),
{
    let entries = Seq::new(numbers.len(), |i: int| copy_entry(info, numbers[i], times[i]));
    assert forall|i: int| 0 <= i < entries.len() implies version_number(
        info.prefix,
        info.extension,
        (#[trigger] entries[i]).file_name,
    ) == Some(numbers[i]) by {
        lemma_version_round_trip(info.prefix, info.extension, numbers[i]);
    }
    assert forall|i: int| 0 <= i < at implies stays_within(info, #[trigger] entries[i], numbers[at]) by {
        assert(numbers[i] < numbers[at]);
    }
    assert forall|i: int| at < i < entries.len() implies is_older(
        info,
        #[trigger] entries[i],
        numbers[at],
        times[at],
    ) by {
        assert(numbers[i] < numbers[at]);
        assert(times[i] <= times[at]);
    }
    lemma_scan_finds_newest(info, entries, at, numbers[at], times[at]);
}

/// A copy that was made from a later modification time than any that a scan
/// has found, and that the directory lists after the entries of that scan, is
/// what the scan then ends with: its number and its time.
pub proof fn lemma_scan_after_copy(
    info: SourceInfoView,
    entries: Seq<DestinationEntryView>,
    number: u64,
    time: u128,
)
    requires
        info.well_formed(),
        time > scan_entries(info, entries).1,
    ensures
        scan_entries(info, entries.push(copy_entry(info, number, time))) == (number, time),
        recovered_state(info, entries.push(copy_entry(info, number, time))) == (StateView {
            source_info: info,
            number,
            last_time: time,
            in_progress: false,
        }),
{
    let all = entries.push(copy_entry(info, number, time));
    assert(all.drop_last() =~= entries);
    assert(all.last() == copy_entry(info, number, time));
    lemma_version_round_trip(info.prefix, info.extension, number);
}

/// The records that the sources start with are kept under the paths of the
/// sources, and under no other path.
pub proof fn lemma_recovered_paths(
    sources: Seq<SourcePath>,
    entries: Seq<DestinationEntryView>,
    path: Seq<u8>,
)
    ensures
        recovered_records(sources, entries).contains_key(path) <==> exists|i: int|
            0 <= i < sources.len() && (#[trigger] sources[i]).path@ == path,
    decreases sources.len(),
{
    if sources.len() > 0 {
        let before = sources.drop_last();
        lemma_recovered_paths(before, entries, path);
        if sources.last().path@ == path {
            assert(sources[sources.len() - 1].path@ == path);
        } else {
            if recovered_records(before, entries).contains_key(path) {
                let i = choose|i: int| 0 <= i < before.len() && (#[trigger] before[i]).path@ == path;
                assert(sources[i] == before[i]);
            }
            if exists|i: int| 0 <= i < sources.len() && (#[trigger] sources[i]).path@ == path {
                let i = choose|i: int|
                    0 <= i < sources.len() && (#[trigger] sources[i]).path@ == path;
                assert(before[i] == sources[i]);
            }
        }
    }
}

/// The record under the path of a source is the one that this source starts
/// with, unless a later source has the same path.
pub proof fn lemma_recovered_record(
    sources: Seq<SourcePath>,
    entries: Seq<DestinationEntryView>,
    at: int,
)
    requires
        0 <= at < sources.len(),
        forall|j: int| at < j < sources.len() ==> (#[trigger] sources[j]).path@ != sources[at].path@,
    ensures
        recovered_records(sources, entries).contains_key(sources[at].path@),
        recovered_records(sources, entries)[sources[at].path@] == recovered_for(
            sources[at],
            entries,
        ),
    decreases sources.len(),
{
    if at < sources.len() - 1 {
        let before = sources.drop_last();
        assert(before[at] == sources[at]);
        assert forall|j: int| at < j < before.len() implies (#[trigger] before[j]).path@
            != before[at].path@ by {
            assert(before[j] == sources[j]);
        }
        lemma_recovered_record(before, entries, at);
        assert(sources[sources.len() - 1].path@ != sources[at].path@);
    }
}

/// Every record that the sources start with has a free lock.
pub proof fn lemma_recovered_locks(
    sources: Seq<SourcePath>,
    entries: Seq<DestinationEntryView>,
    path: Seq<u8>,
)
    requires
        recovered_records(sources, entries).contains_key(path),
    ensures
        !recovered_records(sources, entries)[path].in_progress,
    decreases sources.len(),
{
    if sources.len() > 0 && sources.last().path@ != path {
        lemma_recovered_locks(sources.drop_last(), entries, path);
    }
}

} // verus!
