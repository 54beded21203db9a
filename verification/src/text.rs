//! Text helpers shared by the rest of the library: comparison, searching
//! and replacing on the UTF-8 form of a text, and lossy decoding.

use vstd::prelude::*;
use vstd::string::StringSliceAdditionalSpecFns;
use vstd::utf8::{decode_utf8, encode_utf8, encode_utf8_decode_utf8, valid_utf8};

verus! {

/// `pat` occurs in `text` as a contiguous run of bytes.
pub open spec fn has_subslice(text: Seq<u8>, pat: Seq<u8>) -> bool {
    exists|i: int|
        0 <= i && i + pat.len() <= text.len() && #[trigger] text.subrange(i, i + pat.len()) == pat
}

/// `pat` occurs in `text`: the UTF-8 form of the one holds that of the
/// other.
pub open spec fn has_substring(text: Seq<char>, pat: Seq<char>) -> bool {
    has_subslice(encode_utf8(text), encode_utf8(pat))
}

/// `text` with every occurrence of `from` replaced by `to`, scanning from the
/// left and never looking again at what was part of a match. An empty `from`
/// occurs nowhere.
pub open spec fn replaced_all(text: Seq<u8>, from: Seq<u8>, to: Seq<u8>) -> Seq<u8>
    decreases text.len(),
{
    if from.len() == 0 || text.len() < from.len() {
        text
    } else if text.subrange(0, from.len() as int) == from {
        to + replaced_all(text.subrange(from.len() as int, text.len() as int), from, to)
    } else {
        seq![text[0]] + replaced_all(text.subrange(1, text.len() as int), from, to)
    }
}

/// What lossy decoding makes of bytes that are not valid UTF-8: the text in
/// which U+FFFD stands for each invalid sequence.
pub uninterp spec fn lossy_repaired(bytes: Seq<u8>) -> Seq<char>;

/// The text that lossy decoding makes of a byte string: valid UTF-8 decodes
/// to the text it encodes, anything else is repaired.
pub open spec fn lossy_text(bytes: Seq<u8>) -> Seq<char> {
    if valid_utf8(bytes) {
        decode_utf8(bytes)
    } else {
        lossy_repaired(bytes)
    }
}

/// Lossy decoding gives back the text whose UTF-8 encoding it is handed.
pub proof fn lemma_lossy_text_of_encoding(s: Seq<char>)
    ensures
        lossy_text(encode_utf8(s)) == s,
{
    vstd::utf8::encode_utf8_valid_utf8(s);
    encode_utf8_decode_utf8(s);
}

/// Two strings with the same UTF-8 bytes hold the same characters.
pub proof fn lemma_same_bytes_same_text(a: Seq<char>, b: Seq<char>)
    requires
        encode_utf8(a) == encode_utf8(b),
    ensures
        a == b,
{
    encode_utf8_decode_utf8(a);
    encode_utf8_decode_utf8(b);
}

/// Whether two strings hold the same text.
pub fn str_eq(a: &str, b: &str) -> (same: bool)
    ensures
        same == (a@ == b@),
{
    let x = a.as_bytes();
    let y = b.as_bytes();
    if x.len() != y.len() {
        return false;
    }
    let mut i: usize = 0;
    while i < x.len()
        invariant
            i <= x.len(),
            x.len() == y.len(),
            x@ == a.spec_bytes(),
            y@ == b.spec_bytes(),
            forall|j: int| 0 <= j < i ==> x@[j] == y@[j],
        decreases x.len() - i,
    {
        if x[i] != y[i] {
            return false;
        }
        i += 1;
    }
    proof {
        assert(x@ =~= y@);
        lemma_same_bytes_same_text(a@, b@);
    }
    true
}

/// Whether `from` stands in `text` at position `at`.
fn matches_at(text: &[u8], at: usize, from: &[u8]) -> (found: bool)
    requires
        at + from@.len() <= text@.len(),
    ensures
        found == (text@.subrange(at as int, at + from@.len()) == from@),
{
    let n = text.len();
    let m = from.len();
    let mut k: usize = 0;
    while k < m
        invariant
            k <= m,
            m == from@.len(),
            n == text@.len(),
            at + m <= n,
            forall|j: int| 0 <= j < k ==> text@[at + j] == from@[j],
        decreases m - k,
    {
        if text[at + k] != from[k] {
            assert(text@.subrange(at as int, at + m)[k as int] != from@[k as int]);
            return false;
        }
        k += 1;
    }
    assert(text@.subrange(at as int, at + m) =~= from@);
    true
}

/// Replaces every occurrence of `from` in `text` by `to`.
pub fn replace_all(text: &[u8], from: &[u8], to: &[u8]) -> (out: Vec<u8>)
    ensures
        out@ == replaced_all(text@, from@, to@),
{
    let n = text.len();
    let m = from.len();
    let mut out: Vec<u8> = Vec::new();
    let mut i: usize = 0;
    assert(text@.subrange(0, n as int) =~= text@);
    while i < n
        invariant
            i <= n,
            n == text@.len(),
            m == from@.len(),
            replaced_all(text@, from@, to@) == out@ + replaced_all(
                text@.subrange(i as int, n as int),
                from@,
                to@,
            ),
        decreases n - i,
    {
        let ghost rest = text@.subrange(i as int, n as int);
        let ghost done = out@;
        if m > 0 && m <= n - i && matches_at(text, i, from) {
            assert(rest.subrange(0, m as int) =~= text@.subrange(i as int, i + m));
            assert(rest.subrange(m as int, rest.len() as int) =~= text@.subrange(
                i + m,
                n as int,
            ));
            let mut k: usize = 0;
            while k < to.len()
                invariant
                    k <= to@.len(),
                    out@ == done + to@.subrange(0, k as int),
                decreases to@.len() - k,
            {
                out.push(to[k]);
                assert(out@ =~= done + to@.subrange(0, k as int + 1));
                k += 1;
            }
            assert(to@.subrange(0, to@.len() as int) =~= to@);
            assert(out@ + replaced_all(text@.subrange(i + m, n as int), from@, to@) =~= done + (to@
                + replaced_all(rest.subrange(m as int, rest.len() as int), from@, to@)));
            i += m;
        } else {
            proof {
                if m > 0 && m <= n - i {
                    assert(rest.subrange(0, m as int) =~= text@.subrange(i as int, i + m));
                }
                assert(rest.subrange(1, rest.len() as int) =~= text@.subrange(i + 1, n as int));
                if m == 0 || rest.len() < m {
                    // What is left is too short to hold a match, and so is
                    // what is left of it.
                    let tail = rest.subrange(1, rest.len() as int);
                    assert(replaced_all(tail, from@, to@) == tail);
                    assert(rest =~= seq![rest[0]] + tail);
                }
            }
            out.push(text[i]);
            assert(out@ =~= done + seq![rest[0]]);
            assert(out@ + replaced_all(text@.subrange(i + 1, n as int), from@, to@) =~= done + (
            seq![rest[0]] + replaced_all(rest.subrange(1, rest.len() as int), from@, to@)));
            i += 1;
        }
    }
    assert(text@.subrange(n as int, n as int) =~= Seq::<u8>::empty());
    assert(out@ + Seq::<u8>::empty() =~= out@);
    out
}

/// Whether `pat` occurs anywhere in `text`.
pub fn contains_bytes(text: &[u8], pat: &[u8]) -> (found: bool)
    ensures
        found == has_subslice(text@, pat@),
{
    let n = text.len();
    let m = pat.len();
    if m > n {
        return false;
    }
    if m == 0 {
        assert(text@.subrange(0int, 0int + pat@.len()) =~= pat@);
        return true;
    }
    let mut i: usize = 0;
    while i <= n - m
        invariant
            0 < m <= n,
            i <= n - m + 1,
            n == text@.len(),
            m == pat@.len(),
            forall|j: int| 0 <= j < i ==> #[trigger] text@.subrange(j, j + pat@.len()) != pat@,
        decreases n - m + 1 - i,
    {
        if matches_at(text, i, pat) {
            return true;
        }
        i += 1;
    }
    false
}

/// Whether `pat` occurs anywhere in `text`.
pub fn str_contains(text: &str, pat: &str) -> (found: bool)
    ensures
        found == has_substring(text@, pat@),
{
    contains_bytes(text.as_bytes(), pat.as_bytes())
}

/// `String::from_utf8_lossy`: bytes that are valid UTF-8 decode to exactly
/// the text they encode; for any other bytes the result is a function of the
/// bytes alone.
#[verifier::external_body]
pub(crate) fn utf8_lossy(bytes: &[u8]) -> (out: String)
    ensures
        out@ == lossy_text(bytes@),
        !valid_utf8(bytes@) ==> out@ == lossy_repaired(bytes@),
{
    String::from_utf8_lossy(bytes).into_owned()
}

} // verus!
