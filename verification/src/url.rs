//! Percent-escaping of text that goes into a URL, and its reverse.

use vstd::prelude::*;
use vstd::string::StringSliceAdditionalSpecFns;

verus! {

/// The bytes that stand for themselves in escaped text: ASCII letters and
/// digits and `-`, `.`, `_`, `~`.
pub open spec fn is_unreserved(b: u8) -> bool {
    (0x30 <= b && b <= 0x39) || (0x41 <= b && b <= 0x5a) || (0x61 <= b && b <= 0x7a) || b == 0x2d
        || b == 0x2e || b == 0x5f || b == 0x7e
}

/// The upper-case hexadecimal digit for a value below sixteen.
pub open spec fn hex_digit(n: u8) -> char {
    if n < 10 {
        (0x30 + n) as u8 as char
    } else {
        (0x41 + n - 10) as u8 as char
    }
}

/// The escaped form of one byte.
pub open spec fn percent_byte(b: u8) -> Seq<char> {
    if is_unreserved(b) {
        seq![b as char]
    } else {
        seq!['%', hex_digit(b / 16), hex_digit(b % 16)]
    }
}

/// The escaped form of a byte string: each byte's form, in order.
pub open spec fn percent_encoded(bytes: Seq<u8>) -> Seq<char>
    decreases bytes.len(),
{
    if bytes.len() == 0 {
        Seq::empty()
    } else {
        percent_encoded(bytes.drop_last()) + percent_byte(bytes.last())
    }
}

/// The text that unescaping makes of `text`, or `None` where the unescaped
/// bytes are not UTF-8.
pub uninterp spec fn percent_decoded(text: Seq<char>) -> Option<Seq<char>>;

/// `urlencoding::encode`: every byte of the text's UTF-8 form is escaped as
/// `%` and two upper-case hexadecimal digits, except ASCII letters and
/// digits and `-`, `.`, `_`, `~`, which are kept.
#[verifier::external_body]
pub(crate) fn percent_encode(text: &str) -> (out: String)
    ensures
        out@ == percent_encoded(text.spec_bytes()),
{
    urlencoding::encode(text).into_owned()
}

/// `urlencoding::decode`: the result depends on the text alone; the call
/// fails where the unescaped bytes are not UTF-8.
#[verifier::external_body]
pub(crate) fn percent_decode(text: &str) -> (out: Option<String>)
    ensures
        match percent_decoded(text@) {
            Some(t) => out is Some && out->Some_0@ == t,
            None => out is None,
        },
{
    urlencoding::decode(text).ok().map(|t| t.into_owned())
}

} // verus!
