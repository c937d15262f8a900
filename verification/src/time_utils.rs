//! Times as nanoseconds since the epoch, and their text for the log.

use vstd::prelude::*;

verus! {

/// `std::time::SystemTime`, a time of the system clock. Nothing is known of
/// what is inside a value of it.
#[verifier::external_type_specification]
#[verifier::external_body]
pub struct ExSystemTime(std::time::SystemTime);

/// The number of nanoseconds in a second.
pub const NANOS_PER_SECOND: u128 = 1_000_000_000;

/// The largest time that has a calendar form, in nanoseconds since the epoch.
pub const LAST_CALENDAR_TIME: u128 = 0x7fff_ffff_ffff_ffff;

/// The decimal digit for `d < 10`.
pub open spec fn decimal_digit(d: nat) -> char {
    if d == 0 {
        '0'
    } else if d == 1 {
        '1'
    } else if d == 2 {
        '2'
    } else if d == 3 {
        '3'
    } else if d == 4 {
        '4'
    } else if d == 5 {
        '5'
    } else if d == 6 {
        '6'
    } else if d == 7 {
        '7'
    } else if d == 8 {
        '8'
    } else {
        '9'
    }
}

/// The decimal digits of `n`, without padding.
pub open spec fn decimal_digits(n: nat) -> Seq<char>
    decreases n,
{
    if n < 10 {
        seq![decimal_digit(n)]
    } else {
        decimal_digits(n / 10).push(decimal_digit(n % 10))
    }
}

/// What lies between the epoch and a time of the system clock: the whole
/// seconds and the nanoseconds beyond them, or `None` for a time before the
/// epoch.
pub uninterp spec fn epoch_span(time: std::time::SystemTime) -> Option<(u64, u32)>;

/// Whether `c` is a decimal digit.
pub open spec fn is_decimal_digit(c: char) -> bool {
    exists|d: nat| d < 10 && c == #[trigger] decimal_digit(d)
}

/// Whether `text` has the form of a date and time with milliseconds and the
/// distance from universal time: `2023-11-14T22:13:20.123Z`, or, away from
/// universal time, `2023-11-14T23:13:20.123+01:00`.
pub open spec fn is_calendar_text(text: Seq<char>) -> bool {
    &&& text.len() == 24 || text.len() == 29
    &&& forall|i: int|
        0 <= i < 23 && i != 4 && i != 7 && i != 10 && i != 13 && i != 16 && i != 19
            ==> is_decimal_digit(#[trigger] text[i])
    &&& text[4] == '-' && text[7] == '-'
    &&& text[10] == 'T'
    &&& text[13] == ':' && text[16] == ':'
    &&& text[19] == '.'
    &&& text.len() == 24 ==> text[23] == 'Z'
    &&& text.len() == 29 ==> {
        &&& text[23] == '+' || text[23] == '-'
        &&& is_decimal_digit(text[24]) && is_decimal_digit(text[25])
        &&& text[26] == ':'
        &&& is_decimal_digit(text[27]) && is_decimal_digit(text[28])
    }
}

/// `SystemTime::now`: the time on the system clock.
#[verifier::external_body]
fn system_now() -> std::time::SystemTime {
    std::time::SystemTime::now()
}

/// `SystemTime::duration_since` with `UNIX_EPOCH`: the time that lies between
/// the epoch and `time`, as whole seconds and the nanoseconds beyond them, or
/// `None` if `time` is before the epoch. It is a matter of `time` alone, and
/// the nanoseconds are fewer than make a second.
#[verifier::external_body]
fn since_epoch(time: std::time::SystemTime) -> (r: Option<(u64, u32)>)
    ensures
        r == epoch_span(time),
        r matches Some(parts) ==> parts.1 < NANOS_PER_SECOND,
{
    match time.duration_since(std::time::UNIX_EPOCH) {
        Ok(elapsed) => Some((elapsed.as_secs(), elapsed.subsec_nanos())),
        Err(_) => None,
    }
}

/// `u128`'s `to_string`: the decimal digits of `value`.
#[verifier::external_body]
fn decimal_text(value: u128) -> (r: String)
    ensures
        r@ == decimal_digits(value as nat),
{
    value.to_string()
}

/// `chrono::DateTime::from_timestamp_nanos`, `with_timezone` with
/// `chrono::Local` and `to_rfc3339_opts` with milliseconds: the date and time
/// of `nanos` in the time zone of the machine. Which date and time the text
/// gives depends on that time zone; its form does not.
#[verifier::external_body]
fn local_calendar_text(nanos: i64) -> (r: String)
    ensures
        is_calendar_text(r@),
{
    let utc = chrono::DateTime::from_timestamp_nanos(nanos);
    utc.with_timezone(&chrono::Local).to_rfc3339_opts(chrono::SecondsFormat::Millis, true)
}

/// A span of whole seconds and nanoseconds beyond them, in nanoseconds.
pub fn nanoseconds(seconds: u64, beyond: u32) -> (r: u128)
    ensures
        r == seconds * NANOS_PER_SECOND + beyond,
{
    (seconds as u128) * NANOS_PER_SECOND + (beyond as u128)
}

/// The largest value that a time of the system clock comes to, in nanoseconds
/// since the epoch.
pub open spec fn latest_time() -> int {
    u64::MAX * NANOS_PER_SECOND + NANOS_PER_SECOND - 1
}

/// What lies between the epoch and a time, in nanoseconds. `elapsed` gives it
/// as whole seconds and the nanoseconds beyond them, and is `None` for a time
/// before the epoch, which counts as the epoch itself.
pub open spec fn elapsed_nanos(elapsed: Option<(u64, u32)>) -> int {
    match elapsed {
        Some(parts) => parts.0 * NANOS_PER_SECOND + parts.1,
        None => 0,
    }
}

/// A time in nanoseconds since the epoch, from what lies between the epoch and
/// that time: `elapsed` gives it as whole seconds and the nanoseconds beyond
/// them, and is `None` for a time before the epoch, which comes to 0.
pub fn as_nanos(elapsed: Option<(u64, u32)>) -> (r: u128)
    ensures
        r == elapsed_nanos(elapsed),
{
    match elapsed {
        Some((seconds, beyond)) => nanoseconds(seconds, beyond),
        None => 0,
    }
}

/// The time now, in nanoseconds since the epoch.
pub fn local_now() -> (r: u128)
    ensures
        r <= latest_time(),
{
    as_nanos(since_epoch(system_now()))
}

/// The modification time of a file in nanoseconds since the epoch, from what
/// reading it gave: what lies between the epoch and the time that was read, 0
/// for a time before the epoch, and the failure, if reading failed.
pub fn fs_time(modified: Result<std::time::SystemTime, std::io::Error>) -> (r: Result<
    u128,
    std::io::Error,
>)
    ensures
        match modified {
            Ok(time) => r == Ok::<u128, std::io::Error>(elapsed_nanos(epoch_span(time)) as u128)
                && elapsed_nanos(epoch_span(time)) <= latest_time(),
            Err(error) => r == Err::<u128, std::io::Error>(error),
        },
{
    match modified {
        Ok(time) => Ok(as_nanos(since_epoch(time))),
        Err(error) => Err(error),
    }
}

/// The text of a time for the log: its date and time in the time zone of the
/// machine, or its decimal digits if it is beyond `LAST_CALENDAR_TIME`.
pub fn format_time(time: u128) -> (r: String)
    ensures
        time > LAST_CALENDAR_TIME ==> r@ == decimal_digits(time as nat),
        time <= LAST_CALENDAR_TIME ==> is_calendar_text(r@),
{
    if time > LAST_CALENDAR_TIME {
        decimal_text(time)
    } else {
        local_calendar_text(time as i64)
    }
}

} // verus!
