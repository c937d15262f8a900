//! Text for messages and for the log.

use vstd::prelude::*;
use vstd::string::*;

verus! {

/// The text of a byte string: the text that it encodes in UTF-8, with a
/// replacement character in place of whatever encodes none.
pub uninterp spec fn lossy_text(bytes: Seq<u8>) -> Seq<char>;

/// A text as it is shown between double quotes, with the characters that
/// cannot be shown as they are written as escapes.
pub uninterp spec fn debug_text(text: Seq<char>) -> Seq<char>;

/// The text that stands for a path in a message: the text of the path between
/// double quotes.
pub open spec fn quoted_text(path: Seq<u8>) -> Seq<char> {
    debug_text(lossy_text(path))
}

/// The characters of a byte string that holds ASCII only.
pub open spec fn ascii_text(bytes: Seq<u8>) -> Seq<char> {
    bytes.map_values(|b: u8| b as char)
}

/// `String::from_utf8_lossy`: the text of `bytes`.
#[verifier::external_body]
fn lossy(bytes: &[u8]) -> (r: String)
    ensures
        r@ == lossy_text(bytes@),
{
    String::from_utf8_lossy(bytes).into_owned()
}

/// The `Debug` form of a `str`: `text` as it is shown between double quotes.
#[verifier::external_body]
fn debug_form(text: &str) -> (r: String)
    ensures
        r@ == debug_text(text@),
{
    format!("{:?}", text)
}

/// The text that stands for `path` in a message.
pub(crate) fn quoted(path: &[u8]) -> (r: String)
    ensures
        r@ == quoted_text(path@),
{
    let text = lossy(path);
    debug_form(text.as_str())
}

/// The `Display` form of a `std::io::Error`. Nothing is claimed of the text.
#[verifier::external_body]
pub(crate) fn cause_text(error: &std::io::Error) -> String {
    format!("{}", error)
}

/// The `Debug` form of a `std::io::Error` over several lines. Nothing is
/// claimed of the text.
#[verifier::external_body]
pub(crate) fn cause_details(error: &std::io::Error) -> String {
    format!("{:#?}", error)
}

/// The `LowerHex` form of a `u64`: its hexadecimal digits in lower case,
/// without padding.
#[verifier::external_body]
pub(crate) fn hex_text(number: u64) -> (r: String)
    ensures
        r@ == ascii_text(crate::naming::hex_digits(number as nat)),
{
    format!("{:x}", number)
}

/// The text `head`, `path` as it stands in a message, and `tail`.
pub(crate) fn around_path(head: &str, path: &[u8], tail: &str) -> (r: String)
    ensures
        r@ == head@ + quoted_text(path@) + tail@,
{
    let mut message = String::from_str(head);
    let shown = quoted(path);
    message.append(shown.as_str());
    message.append(tail);
    message
}

} // verus!
