//! The record of one watched file.

use crate::naming::copy_bytes;
use crate::naming::file_extension;
use crate::naming::file_stem;
use crate::naming::hex_digits;
use crate::naming::is_parent_name;
use crate::naming::lemma_name_splits_cleanly;
use crate::naming::name_extension;
use crate::naming::name_stem;
use crate::naming::optional_view;
use crate::naming::splits_cleanly;
use crate::state::error::StateInitializeError;
use crate::text::ascii_text;
use crate::text::hex_text;
use crate::time_utils::decimal_digits;
use crate::time_utils::format_time;
use crate::time_utils::is_calendar_text;
use crate::time_utils::LAST_CALENDAR_TIME;
use vstd::prelude::*;
use vstd::string::*;

verus! {

/// A watched file as the caller resolved it: its absolute path, and the last
/// component of that path if the path ends in a file name.
#[derive(Debug)]
pub struct SourcePath {
    /// The absolute path. The records are kept under it.
    pub path: Vec<u8>,
    /// The final component of the path. `None` for a path that ends in `..` or
    /// is a root.
    pub file_name: Option<Vec<u8>>,
}

/// A `SourcePath` as mathematical values.
pub struct SourcePathView {
    pub path: Seq<u8>,
    pub file_name: Option<Seq<u8>>,
}

impl View for SourcePath {
    type V = SourcePathView;

    open spec fn view(&self) -> SourcePathView {
        SourcePathView { path: self.path@, file_name: optional_view(self.file_name) }
    }
}

/// What the names of the copies of a source are made of.
#[derive(Debug, Clone)]
pub struct SourceInfo {
    /// The file stem of the source.
    pub prefix: Vec<u8>,
    /// The extension of the source, if it has one.
    pub extension: Option<Vec<u8>>,
}

/// A `SourceInfo` as mathematical values.
pub struct SourceInfoView {
    pub prefix: Seq<u8>,
    pub extension: Option<Seq<u8>>,
}

impl View for SourceInfo {
    type V = SourceInfoView;

    open spec fn view(&self) -> SourceInfoView {
        SourceInfoView { prefix: self.prefix@, extension: optional_view(self.extension) }
    }
}

impl SourceInfoView {
    /// The prefix and the extension can be the two parts of one file name.
    pub open spec fn well_formed(self) -> bool {
        splits_cleanly(self.prefix, self.extension)
    }
}

impl SourceInfo {
    /// Splits the file name of `source` into stem and extension.
    ///
    /// Fails with `NoFileStem` if the path of the source does not end in a file
    /// name.
    pub fn try_from(source: &SourcePath) -> (r: Result<SourceInfo, StateInitializeError>)
        ensures
            match source.file_name {
                Some(name) => r matches Ok(info) && info@.prefix == name_stem(name@)
                    && info@.extension == name_extension(name@) && (!is_parent_name(name@)
                    ==> info@.well_formed()),
                None => r matches Err(StateInitializeError::NoFileStem { source: path }) && path@
                    == source.path@,
            },
    {
        match &source.file_name {
            Some(name) => {
                proof {
                    if !is_parent_name(name@) {
                        lemma_name_splits_cleanly(name@);
                    }
                }
                Ok(
                    SourceInfo {
                        prefix: file_stem(name.as_slice()),
                        extension: file_extension(name.as_slice()),
                    },
                )
            },
            None => Err(
                StateInitializeError::NoFileStem { source: copy_bytes(source.path.as_slice()) },
            ),
        }
    }

    /// A copy of this value.
    pub fn duplicate(&self) -> (r: SourceInfo)
        ensures
            r@ == self@,
    {
        let extension = match &self.extension {
            Some(e) => Some(copy_bytes(e.as_slice())),
            None => None,
        };
        SourceInfo { prefix: copy_bytes(self.prefix.as_slice()), extension }
    }
}

/// The record of one watched file: what its copies are named after, the number
/// of its newest copy, the modification time that copy was made from, and the
/// lock that lets one backup of the file run at a time.
#[derive(Debug, Clone)]
pub struct State {
    lock: bool,
    source_info: SourceInfo,
    number: u64,
    last_time: u128,
}

/// A `State` as mathematical values.
pub struct StateView {
    pub source_info: SourceInfoView,
    pub number: u64,
    pub last_time: u128,
    /// Whether the lock is held: a backup of the file is under way.
    pub in_progress: bool,
}

impl StateView {
    /// The record after a candidate pair was offered to it: the pair replaces
    /// number and time if its time is later than the recorded one, and is
    /// dropped otherwise.
    pub open spec fn advance(self, number: u64, last_time: u128) -> StateView {
        if last_time > self.last_time {
            StateView {
                source_info: self.source_info,
                number,
                last_time,
                in_progress: self.in_progress,
            }
        } else {
            self
        }
    }

    /// The record with the lock held.
    pub open spec fn acquired(self) -> StateView {
        StateView {
            source_info: self.source_info,
            number: self.number,
            last_time: self.last_time,
            in_progress: true,
        }
    }

    /// The record with the lock free.
    pub open spec fn released(self) -> StateView {
        StateView {
            source_info: self.source_info,
            number: self.number,
            last_time: self.last_time,
            in_progress: false,
        }
    }
}

impl View for State {
    type V = StateView;

    closed spec fn view(&self) -> StateView {
        StateView {
            source_info: self.source_info@,
            number: self.number,
            last_time: self.last_time,
            in_progress: self.lock,
        }
    }
}

impl State {
    /// A record with the given contents and a free lock. A `last_time` of 0
    /// says that no copy has been made yet.
    pub fn new(source_info: SourceInfo, number: u64, last_time: u128) -> (r: State)
        ensures
            r@ == (StateView { source_info: source_info@, number, last_time, in_progress: false }),
    {
        State { lock: false, source_info, number, last_time }
    }

    /// Whether the lock is held.
    pub fn in_progress(&self) -> (r: bool)
        ensures
            r == self@.in_progress,
    {
        self.lock
    }

    /// Takes the lock if it is free. Returns whether this call took it.
    pub fn try_acquire(&mut self) -> (taken: bool)
        ensures
            taken == !old(self)@.in_progress,
            final(self)@ == old(self)@.acquired(),
    {
        if self.lock {
            false
        } else {
            self.lock = true;
            true
        }
    }

    /// Frees the lock.
    pub fn release(&mut self)
        ensures
            final(self)@ == old(self)@.released(),
    {
        self.lock = false;
    }

    /// Offers the record a pair: it replaces number and time if its time is
    /// later than the recorded one, and is dropped otherwise.
    pub fn publish(&mut self, number: u64, last_time: u128)
        ensures
            final(self)@ == old(self)@.advance(number, last_time),
    {
        if last_time > self.last_time {
            self.number = number;
            self.last_time = last_time;
        }
    }

    /// What the names of the copies are made of.
    pub fn source_info(&self) -> (r: &SourceInfo)
        ensures
            r@ == self@.source_info,
    {
        &self.source_info
    }

    /// The number of the newest copy.
    pub fn number(&self) -> (r: u64)
        ensures
            r == self@.number,
    {
        self.number
    }

    /// The modification time the newest copy was made from, in nanoseconds
    /// since the epoch, or 0 if there is no copy yet.
    pub fn last_time(&self) -> (r: u128)
        ensures
            r == self@.last_time,
    {
        self.last_time
    }

    /// The record in words, for the log: `Empty state` if no copy has been
    /// made, else the number of the newest copy in hexadecimal digits and the
    /// time it was made from, as `format_time` writes it.
    pub fn to_string(&self) -> (r: String)
        ensures
            self@.last_time == 0 ==> r@ == "Empty state"@,
            self@.last_time != 0 ==> {
                let head = "Number: "@ + ascii_text(hex_digits(self@.number as nat))
                    + ", Last time: "@;
                let when = r@.subrange(head.len() as int, r@.len() as int);
                &&& head.is_prefix_of(r@)
                &&& self@.last_time > LAST_CALENDAR_TIME ==> when == decimal_digits(
                    self@.last_time as nat,
                )
                &&& self@.last_time <= LAST_CALENDAR_TIME ==> is_calendar_text(when)
            },
    {
        if self.last_time == 0 {
            String::from_str("Empty state")
        } else {
            let mut text = String::from_str("Number: ");
            let number = hex_text(self.number);
            text.append(number.as_str());
            text.append(", Last time: ");
            let ghost head = text@;
            let time = format_time(self.last_time);
            text.append(time.as_str());
            assert(text@.subrange(0, head.len() as int) =~= head);
            assert(text@.subrange(head.len() as int, text@.len() as int) =~= time@);
            text
        }
    }

    /// A copy of this record.
    pub fn duplicate(&self) -> (r: State)
        ensures
            r@ == self@,
    {
        State {
            lock: self.lock,
            source_info: self.source_info.duplicate(),
            number: self.number,
            last_time: self.last_time,
        }
    }

    /// Under the lock, offers the record the pair that `update_fn` computes
    /// from the destination and the record's contents. The pair replaces
    /// number and time if its time is later than the recorded one.
    ///
    /// Returns whether the offer was made. It is not made if the lock is
    /// held; the record then stays as it is, and `update_fn` is not called.
    /// Else the lock is taken for the time of the call and is free again when
    /// the call returns.
    pub fn update<F>(&mut self, destination: &Vec<u8>, update_fn: &F) -> (offered: bool) where
        F: Fn(&Vec<u8>, &SourceInfo, u64, u128) -> (u64, u128),

        requires
            !old(self)@.in_progress ==> forall|info: SourceInfo|
                info@ == old(self)@.source_info ==> #[trigger] call_requires(
                    *update_fn,
                    (destination, &info, old(self)@.number, old(self)@.last_time),
                ),
        ensures
            offered == !old(self)@.in_progress,
            !offered ==> final(self)@ == old(self)@,
            offered ==> (exists|info: SourceInfo, number: u64, last_time: u128|
                info@ == old(self)@.source_info && #[trigger] call_ensures(
                    *update_fn,
                    (destination, &info, old(self)@.number, old(self)@.last_time),
                    (number, last_time),
                ) && final(self)@ == old(self)@.advance(number, last_time)),
    {
        assert(self.number == old(self)@.number && self.last_time == old(self)@.last_time);
        if !self.try_acquire() {
            return false;
        }
        let (number, last_time) = update_fn(
            destination,
            &self.source_info,
            self.number,
            self.last_time,
        );
        self.publish(number, last_time);
        self.release();
        true
    }
}

} // verus!
