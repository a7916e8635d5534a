//! Bytes as hexadecimal text, for file names and diagnostics.
use vstd::prelude::*;

verus! {

/// The lower-case hexadecimal digit of a number below sixteen.
pub open spec fn lower_digit(n: int) -> char {
    seq!['0', '1', '2', '3', '4', '5', '6', '7', '8', '9', 'a', 'b', 'c', 'd', 'e', 'f'][n]
}

/// The upper-case hexadecimal digit of a number below sixteen.
pub open spec fn upper_digit(n: int) -> char {
    seq!['0', '1', '2', '3', '4', '5', '6', '7', '8', '9', 'A', 'B', 'C', 'D', 'E', 'F'][n]
}

/// The half of byte `i / 2` of `data` that digit `i` of its text stands
/// for: the upper half first.
pub open spec fn nibble(data: Seq<u8>, i: int) -> int {
    if i % 2 == 0 {
        data[i / 2] as int / 16
    } else {
        data[i / 2] as int % 16
    }
}

/// `data` as text: two lower-case hexadecimal digits for each byte.
pub open spec fn hex_lower(data: Seq<u8>) -> Seq<char> {
    Seq::new(2 * data.len(), |i: int| lower_digit(nibble(data, i)))
}

/// `data` as text: two upper-case hexadecimal digits for each byte.
pub open spec fn hex_upper(data: Seq<u8>) -> Seq<char> {
    Seq::new(2 * data.len(), |i: int| upper_digit(nibble(data, i)))
}

/// Calls `hex::encode`, which writes each byte as two digits, the upper
/// half first, with the letters in lower case. Assumed, and not proved: the
/// text is `hex_lower` of the bytes.
#[verifier::external_body]
pub(crate) fn hex_encode(data: &[u8]) -> (s: String)
    ensures
        s@ == hex_lower(data@),
{
    hex::encode(data)
}

/// Calls `hex::encode_upper`, which works as `hex::encode` does but for the
/// case of the letters. Assumed, and not proved: the text is `hex_upper` of
/// the bytes.
#[verifier::external_body]
pub(crate) fn hex_encode_upper(data: &[u8]) -> (s: String)
    ensures
        s@ == hex_upper(data@),
{
    hex::encode_upper(data)
}

/// Calls `String::push_str`, which appends a string slice to a string.
/// Assumed, and not proved: the string then holds what it held, followed by
/// the slice.
#[verifier::external_body]
pub(crate) fn push_str(s: &mut String, tail: &str)
    ensures
        final(s)@ == old(s)@ + tail@,
{
    s.push_str(tail)
}

} // verus!
