//! The names of the copies in the destination directory.
//!
//! A copy of `report.csv` is named `report_<n>.csv`, where `<n>` is the number
//! of the copy in lower-case hexadecimal digits without padding. A source
//! without an extension gives copies without one.

use vstd::prelude::*;

verus! {

/// The byte `.`, which separates a file stem from its extension.
pub const DOT: u8 = 0x2e;

/// The byte `_`, which separates the prefix of a copy's name from its number.
pub const UNDERSCORE: u8 = 0x5f;

/// The byte `+`, which may precede the digits of a number.
pub const PLUS: u8 = 0x2b;

/// The value of a hexadecimal digit of either case, if `b` is one.
pub open spec fn digit_value(b: u8) -> Option<nat> {
    if 0x30 <= b <= 0x39 {
        Some((b - 0x30) as nat)
    } else if 0x61 <= b <= 0x66 {
        Some((b - 0x61 + 10) as nat)
    } else if 0x41 <= b <= 0x46 {
        Some((b - 0x41 + 10) as nat)
    } else {
        None
    }
}

/// Every byte of `s` is a hexadecimal digit.
pub open spec fn all_digits(s: Seq<u8>) -> bool {
    forall|i: int| 0 <= i < s.len() ==> (#[trigger] digit_value(s[i])) is Some
}

/// The number that the hexadecimal digits `s` denote, most significant first.
pub open spec fn digits_value(s: Seq<u8>) -> nat
    decreases s.len(),
{
    if s.len() == 0 {
        0
    } else {
        digits_value(s.drop_last()) * 16 + match digit_value(s.last()) {
            Some(d) => d,
            None => 0,
        }
    }
}

/// The digits of a number text: the text without a leading `+`.
pub open spec fn unsigned_part(s: Seq<u8>) -> Seq<u8> {
    if s.len() > 0 && s[0] == PLUS {
        s.subrange(1, s.len() as int)
    } else {
        s
    }
}

/// The number that the text `s` denotes in base 16.
///
/// A text denotes a number if it is an optional `+` followed by at least one
/// hexadecimal digit of either case, and the number fits in 64 bits.
pub open spec fn parse_hex(s: Seq<u8>) -> Option<u64> {
    let digits = unsigned_part(s);
    if digits.len() > 0 && all_digits(digits) && digits_value(digits) <= u64::MAX {
        Some(digits_value(digits) as u64)
    } else {
        None
    }
}

/// The lower-case hexadecimal digit for `d < 16`.
pub open spec fn hex_digit(d: nat) -> u8 {
    if d < 10 {
        (0x30 + d) as u8
    } else {
        (0x57 + d) as u8
    }
}

/// The lower-case hexadecimal digits of `n`, without padding.
pub open spec fn hex_digits(n: nat) -> Seq<u8>
    decreases n,
{
    if n < 16 {
        seq![hex_digit(n)]
    } else {
        hex_digits(n / 16).push(hex_digit(n % 16))
    }
}

/// Extending a digit string by one digit multiplies its value by 16 and adds
/// the digit.
pub proof fn lemma_digits_value_push(s: Seq<u8>, b: u8)
    ensures
        digits_value(s.push(b)) == digits_value(s) * 16 + match digit_value(b) {
            Some(d) => d,
            None => 0,
        },
{
    assert(s.push(b).drop_last() =~= s);
    assert(s.push(b).last() == b);
}

/// A digit string denotes at least what any of its beginnings denotes.
pub proof fn lemma_digits_value_monotone(s: Seq<u8>, k: int)
    requires
        0 <= k <= s.len(),
    ensures
        digits_value(s.subrange(0, k)) <= digits_value(s),
    decreases s.len(),
{
    if k == s.len() {
        assert(s.subrange(0, k) =~= s);
    } else {
        lemma_digits_value_monotone(s.drop_last(), k);
        assert(s.drop_last().subrange(0, k) =~= s.subrange(0, k));
    }
}

/// The number of the digit `b`, if it is a hexadecimal digit.
fn digit_of(b: u8) -> (r: Option<u64>)
    ensures
        match r {
            Some(d) => digit_value(b) == Some(d as nat) && d < 16,
            None => digit_value(b) is None,
        },
{
    if 0x30 <= b && b <= 0x39 {
        Some((b - 0x30) as u64)
    } else if 0x61 <= b && b <= 0x66 {
        Some((b - 0x61 + 10) as u64)
    } else if 0x41 <= b && b <= 0x46 {
        Some((b - 0x41 + 10) as u64)
    } else {
        None
    }
}

/// Reads `text` as a number in base 16.
pub fn parse_number(text: &[u8]) -> (r: Option<u64>)
    ensures
        r == parse_hex(text@),
{
    let start: usize = if text.len() > 0 && text[0] == PLUS {
        1
    } else {
        0
    };
    let ghost digits = unsigned_part(text@);
    assert(digits =~= text@.subrange(start as int, text@.len() as int));
    if start == text.len() {
        return None;
    }
    let mut value: u64 = 0;
    let mut i: usize = start;
    while i < text.len()
        invariant
            start <= i <= text.len(),
            digits == unsigned_part(text@),
            digits == text@.subrange(start as int, text@.len() as int),
            all_digits(digits.subrange(0, i - start)),
            value == digits_value(digits.subrange(0, i - start)),
        decreases text.len() - i,
    {
        let ghost before = digits.subrange(0, i - start);
        let ghost after = digits.subrange(0, i + 1 - start);
        proof {
            assert(after =~= before.push(text@[i as int]));
            lemma_digits_value_push(before, text@[i as int]);
            lemma_digits_value_monotone(digits, i + 1 - start);
        }
        match digit_of(text[i]) {
            None => {
                assert(digit_value(digits[i - start]) is None);
                return None;
            },
            Some(d) => {
                if value > (u64::MAX - d) / 16 {
                    return None;
                }
                value = value * 16 + d;
                assert forall|j: int| 0 <= j < after.len() implies (#[trigger] digit_value(
                    after[j],
                )) is Some by {
                    if j < before.len() {
                        assert(after[j] == before[j]);
                    }
                }
            },
        }
        i += 1;
    }
    assert(digits.subrange(0, i - start) =~= digits);
    Some(value)
}

/// Proof that the digits written for a number are hexadecimal digits that
/// denote it, and that there is at least one of them.
pub proof fn lemma_hex_digits(n: nat)
    ensures
        hex_digits(n).len() > 0,
        all_digits(hex_digits(n)),
        digits_value(hex_digits(n)) == n,
        hex_digits(n)[0] != PLUS,
        forall|i: int| 0 <= i < hex_digits(n).len() ==> hex_digits(n)[i] != DOT,
    decreases n,
{
    if n < 16 {
        let s = seq![hex_digit(n)];
        assert(s.drop_last() =~= Seq::<u8>::empty());
        assert(digits_value(s.drop_last()) == 0);
        assert(digit_value(hex_digit(n)) == Some(n));
    } else {
        lemma_hex_digits(n / 16);
        let head = hex_digits(n / 16);
        lemma_digits_value_push(head, hex_digit(n % 16));
        assert(digit_value(hex_digit(n % 16)) == Some(n % 16));
        assert forall|i: int| 0 <= i < hex_digits(n).len() implies (#[trigger] digit_value(
            hex_digits(n)[i],
        )) is Some && hex_digits(n)[i] != DOT by {
            if i < head.len() {
                assert(hex_digits(n)[i] == head[i]);
            }
        }
    }
}

/// Writing a number and reading the digits back gives the number.
pub proof fn lemma_parse_written(n: u64)
    ensures
        parse_hex(hex_digits(n as nat)) == Some(n),
{
    lemma_hex_digits(n as nat);
}

/// Appends the bytes of `tail` to `out`.
pub fn append_bytes(out: &mut Vec<u8>, tail: &[u8])
    ensures
        final(out)@ == old(out)@ + tail@,
{
    let mut i: usize = 0;
    while i < tail.len()
        invariant
            i <= tail.len(),
            out@ == old(out)@ + tail@.subrange(0, i as int),
        decreases tail.len() - i,
    {
        out.push(tail[i]);
        assert(out@ =~= old(out)@ + tail@.subrange(0, i + 1));
        i += 1;
    }
    assert(tail@.subrange(0, i as int) =~= tail@);
}

/// A new vector with the bytes of `source`.
pub fn copy_bytes(source: &[u8]) -> (r: Vec<u8>)
    ensures
        r@ == source@,
{
    let mut out: Vec<u8> = Vec::new();
    append_bytes(&mut out, source);
    assert(out@ =~= source@);
    out
}

/// Whether two byte strings are the same.
pub fn same_bytes(a: &[u8], b: &[u8]) -> (r: bool)
    ensures
        r == (a@ == b@),
{
    if a.len() != b.len() {
        return false;
    }
    let mut i: usize = 0;
    while i < a.len()
        invariant
            i <= a.len(),
            a.len() == b.len(),
            a@.subrange(0, i as int) == b@.subrange(0, i as int),
        decreases a.len() - i,
    {
        if a[i] != b[i] {
            return false;
        }
        assert(a@.subrange(0, i + 1) =~= a@.subrange(0, i as int).push(a@[i as int]));
        assert(b@.subrange(0, i + 1) =~= b@.subrange(0, i as int).push(b@[i as int]));
        i += 1;
    }
    assert(a@.subrange(0, i as int) =~= a@);
    assert(b@.subrange(0, i as int) =~= b@);
    true
}

/// Whether two optional byte strings are the same.
pub fn same_optional_bytes(a: &Option<Vec<u8>>, b: &Option<Vec<u8>>) -> (r: bool)
    ensures
        r == (optional_view(*a) == optional_view(*b)),
{
    match (a, b) {
        (None, None) => true,
        (Some(x), Some(y)) => same_bytes(x.as_slice(), y.as_slice()),
        _ => false,
    }
}

/// The bytes of an optional byte string.
pub open spec fn optional_view(bytes: Option<Vec<u8>>) -> Option<Seq<u8>> {
    match bytes {
        Some(b) => Some(b@),
        None => None,
    }
}

/// The lower-case hexadecimal digit for `d`.
fn digit_byte(d: u64) -> (r: u8)
    requires
        d < 16,
    ensures
        r == hex_digit(d as nat),
{
    if d < 10 {
        (0x30 + d) as u8
    } else {
        (0x57 + d) as u8
    }
}

/// Appends the lower-case hexadecimal digits of `number` to `out`.
pub fn append_hex(out: &mut Vec<u8>, number: u64)
    ensures
        final(out)@ == old(out)@ + hex_digits(number as nat),
    decreases number,
{
    if number >= 16 {
        append_hex(out, number / 16);
    }
    out.push(digit_byte(number % 16));
    assert(out@ =~= old(out)@ + hex_digits(number as nat));
}

/// The index of the last `.` in `name`, or -1 if it has none.
pub open spec fn last_dot(name: Seq<u8>) -> int
    decreases name.len(),
{
    if name.len() == 0 {
        -1
    } else if name.last() == DOT {
        name.len() - 1
    } else {
        last_dot(name.drop_last())
    }
}

/// Whether a file name has an extension: its last `.` is not its first byte,
/// and the name is not `..`.
pub open spec fn has_extension(name: Seq<u8>) -> bool {
    last_dot(name) > 0 && !(name.len() == 2 && name[0] == DOT)
}

/// The stem of a file name: the part before its last `.`, or the whole name if
/// it has no extension.
pub open spec fn name_stem(name: Seq<u8>) -> Seq<u8> {
    if has_extension(name) {
        name.subrange(0, last_dot(name))
    } else {
        name
    }
}

/// The extension of a file name: the part after its last `.`, if the name has
/// an extension.
pub open spec fn name_extension(name: Seq<u8>) -> Option<Seq<u8>> {
    if has_extension(name) {
        Some(name.subrange(last_dot(name) + 1, name.len() as int))
    } else {
        None
    }
}

/// What `last_dot` finds: a `.` with none after it, or -1 where there is none.
pub proof fn lemma_last_dot(name: Seq<u8>)
    ensures
        -1 <= last_dot(name) < name.len(),
        last_dot(name) >= 0 ==> name[last_dot(name)] == DOT,
        forall|j: int| last_dot(name) < j < name.len() ==> name[j] != DOT,
    decreases name.len(),
{
    if name.len() > 0 && name.last() != DOT {
        lemma_last_dot(name.drop_last());
        assert forall|j: int| last_dot(name) < j < name.len() implies name[j] != DOT by {
            if j < name.len() - 1 {
                assert(name.drop_last()[j] == name[j]);
            }
        }
    }
}

/// A `.` with none after it is the one `last_dot` finds.
pub proof fn lemma_last_dot_is(name: Seq<u8>, k: int)
    requires
        0 <= k < name.len(),
        name[k] == DOT,
        forall|j: int| k < j < name.len() ==> name[j] != DOT,
    ensures
        last_dot(name) == k,
{
    lemma_last_dot(name);
}

/// A name without any `.` after its first byte has no extension.
pub proof fn lemma_no_dot_no_extension(name: Seq<u8>)
    requires
        forall|j: int| 0 < j < name.len() ==> name[j] != DOT,
    ensures
        !has_extension(name),
{
    lemma_last_dot(name);
}

/// The index at which `name` splits into stem and extension, if it has an
/// extension.
pub fn split_point(name: &[u8]) -> (r: Option<usize>)
    ensures
        match r {
            Some(i) => has_extension(name@) && i == last_dot(name@),
            None => !has_extension(name@),
        },
{
    proof {
        lemma_last_dot(name@);
    }
    if name.len() == 2 && name[0] == DOT && name[1] == DOT {
        return None;
    }
    let mut i: usize = name.len();
    while i > 0
        invariant
            i <= name.len(),
            !(name.len() == 2 && name@[0] == DOT && name@[1] == DOT),
            forall|j: int| i <= j < name.len() ==> name@[j] != DOT,
        decreases i,
    {
        i -= 1;
        if name[i] == DOT {
            proof {
                lemma_last_dot_is(name@, i as int);
            }
            if i == 0 {
                return None;
            }
            return Some(i);
        }
    }
    None
}

/// The stem of the file name `name`.
pub fn file_stem(name: &[u8]) -> (r: Vec<u8>)
    ensures
        r@ == name_stem(name@),
{
    proof {
        lemma_last_dot(name@);
    }
    match split_point(name) {
        Some(i) => {
            let mut out: Vec<u8> = Vec::new();
            let mut k: usize = 0;
            while k < i
                invariant
                    k <= i < name.len(),
                    out@ == name@.subrange(0, k as int),
                decreases i - k,
            {
                out.push(name[k]);
                assert(out@ =~= name@.subrange(0, k + 1));
                k += 1;
            }
            out
        },
        None => copy_bytes(name),
    }
}

/// The extension of the file name `name`, if it has one.
pub fn file_extension(name: &[u8]) -> (r: Option<Vec<u8>>)
    ensures
        optional_view(r) == name_extension(name@),
{
    proof {
        lemma_last_dot(name@);
    }
    match split_point(name) {
        Some(i) => {
            let end: usize = name.len();
            let mut out: Vec<u8> = Vec::new();
            let mut k: usize = i + 1;
            while k < end
                invariant
                    end == name.len(),
                    i < k <= name.len(),
                    out@ == name@.subrange(i + 1, k as int),
                decreases end - k,
            {
                out.push(name[k]);
                assert(out@ =~= name@.subrange(i + 1, k + 1));
                k += 1;
            }
            Some(out)
        },
        None => None,
    }
}

/// The beginning of the stem of every copy of a source with stem `prefix`: the
/// prefix and a `_`.
pub open spec fn version_lead(prefix: Seq<u8>) -> Seq<u8> {
    prefix.push(UNDERSCORE)
}

/// The name of copy `number` of a source with stem `prefix` and the given
/// extension.
pub open spec fn version_name(prefix: Seq<u8>, extension: Option<Seq<u8>>, number: u64) -> Seq<u8> {
    let stem = version_lead(prefix) + hex_digits(number as nat);
    match extension {
        Some(e) => stem.push(DOT) + e,
        None => stem,
    }
}

/// The number of the copy that `name` names, if it names a copy of a source
/// with stem `prefix` and the given extension: the extensions are the same, the
/// stem of `name` begins with the prefix and a `_`, and the rest of the stem
/// reads as a number in base 16.
pub open spec fn version_number(prefix: Seq<u8>, extension: Option<Seq<u8>>, name: Seq<u8>) -> Option<
    u64,
> {
    let stem = name_stem(name);
    let lead = version_lead(prefix);
    if name_extension(name) == extension && lead.is_prefix_of(stem) {
        parse_hex(stem.subrange(lead.len() as int, stem.len() as int))
    } else {
        None
    }
}

/// Whether a prefix and an extension can be the stem and the extension of one
/// file name: the extension holds no `.`, and without an extension the prefix
/// holds no `.` after its first byte.
pub open spec fn splits_cleanly(prefix: Seq<u8>, extension: Option<Seq<u8>>) -> bool {
    match extension {
        Some(e) => forall|i: int| 0 <= i < e.len() ==> e[i] != DOT,
        None => forall|i: int| 0 < i < prefix.len() ==> prefix[i] != DOT,
    }
}

/// The name `..`, which stands for the parent directory and names no file.
pub open spec fn is_parent_name(name: Seq<u8>) -> bool {
    name.len() == 2 && name[0] == DOT && name[1] == DOT
}

/// The stem and the extension of a file name split cleanly.
pub proof fn lemma_name_splits_cleanly(name: Seq<u8>)
    requires
        !is_parent_name(name),
    ensures
        splits_cleanly(name_stem(name), name_extension(name)),
{
    lemma_last_dot(name);
    if has_extension(name) {
        let k = last_dot(name);
        let e = name.subrange(k + 1, name.len() as int);
        assert forall|i: int| 0 <= i < e.len() implies e[i] != DOT by {
            assert(e[i] == name[k + 1 + i]);
        }
    }
}

/// The name of a copy splits into the stem it was built with and the extension
/// it was built with.
pub proof fn lemma_version_name_splits(prefix: Seq<u8>, extension: Option<Seq<u8>>, number: u64)
    requires
        splits_cleanly(prefix, extension),
    ensures
        name_stem(version_name(prefix, extension, number)) == version_lead(prefix) + hex_digits(
            number as nat,
        ),
        name_extension(version_name(prefix, extension, number)) == extension,
{
    let name = version_name(prefix, extension, number);
    let stem = version_lead(prefix) + hex_digits(number as nat);
    lemma_hex_digits(number as nat);
    lemma_last_dot(name);
    match extension {
        Some(e) => {
            let k = stem.len() as int;
            assert(name[k] == DOT);
            assert forall|j: int| k < j < name.len() implies name[j] != DOT by {
                assert(name[j] == e[j - k - 1]);
            }
            lemma_last_dot_is(name, k);
            assert(stem[prefix.len() as int] == UNDERSCORE);
            assert(name[prefix.len() as int] == UNDERSCORE);
            assert(name.subrange(0, k) =~= stem);
            assert(name.subrange(k + 1, name.len() as int) =~= e);
        },
        None => {
            assert forall|j: int| 0 < j < name.len() implies name[j] != DOT by {
                if j < prefix.len() {
                    assert(name[j] == prefix[j]);
                } else if j == prefix.len() {
                    assert(name[j] == UNDERSCORE);
                } else {
                    assert(name[j] == hex_digits(number as nat)[j - prefix.len() - 1]);
                }
            }
            lemma_no_dot_no_extension(name);
        },
    }
}

/// Reading the name that was written for a copy gives the number of the copy.
pub proof fn lemma_version_round_trip(prefix: Seq<u8>, extension: Option<Seq<u8>>, number: u64)
    requires
        splits_cleanly(prefix, extension),
    ensures
        version_number(prefix, extension, version_name(prefix, extension, number)) == Some(number),
{
    lemma_version_name_splits(prefix, extension, number);
    lemma_parse_written(number);
    let lead = version_lead(prefix);
    let stem = lead + hex_digits(number as nat);
    assert(stem.subrange(0, lead.len() as int) =~= lead);
    assert(stem.subrange(lead.len() as int, stem.len() as int) =~= hex_digits(number as nat));
}

/// Builds the name of copy `number` of a source with stem `prefix` and the
/// given extension.
pub fn write_version_name(prefix: &[u8], extension: &Option<Vec<u8>>, number: u64) -> (r: Vec<u8>)
    ensures
        r@ == version_name(prefix@, optional_view(*extension), number),
{
    let mut out: Vec<u8> = copy_bytes(prefix);
    out.push(UNDERSCORE);
    append_hex(&mut out, number);
    match extension {
        Some(e) => {
            out.push(DOT);
            append_bytes(&mut out, e.as_slice());
        },
        None => {},
    }
    out
}

/// Whether `text` begins with `lead`.
pub fn begins_with(text: &[u8], lead: &[u8]) -> (r: bool)
    ensures
        r == lead@.is_prefix_of(text@),
{
    if lead.len() > text.len() {
        return false;
    }
    let mut i: usize = 0;
    while i < lead.len()
        invariant
            i <= lead.len() <= text.len(),
            forall|j: int| 0 <= j < i ==> lead@[j] == text@[j],
        decreases lead.len() - i,
    {
        if lead[i] != text[i] {
            assert(text@.subrange(0, lead@.len() as int)[i as int] != lead@[i as int]);
            return false;
        }
        i += 1;
    }
    assert(text@.subrange(0, lead@.len() as int) =~= lead@);
    true
}

/// Reads the number of the copy that `name` names, if it names a copy of a
/// source with stem `prefix` and the given extension.
pub fn read_version_number(prefix: &[u8], extension: &Option<Vec<u8>>, name: &[u8]) -> (r: Option<
    u64,
>)
    ensures
        r == version_number(prefix@, optional_view(*extension), name@),
{
    let found = file_extension(name);
    if !same_optional_bytes(&found, extension) {
        return None;
    }
    let stem = file_stem(name);
    let mut lead: Vec<u8> = copy_bytes(prefix);
    lead.push(UNDERSCORE);
    if !begins_with(stem.as_slice(), lead.as_slice()) {
        return None;
    }
    let mut rest: Vec<u8> = Vec::new();
    let mut i: usize = lead.len();
    while i < stem.len()
        invariant
            lead.len() <= i <= stem.len(),
            rest@ == stem@.subrange(lead.len() as int, i as int),
        decreases stem.len() - i,
    {
        rest.push(stem[i]);
        assert(rest@ =~= stem@.subrange(lead.len() as int, i + 1));
        i += 1;
    }
    parse_number(rest.as_slice())
}

} // verus!
