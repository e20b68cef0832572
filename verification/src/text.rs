//! Byte strings to `&str`, which Verus does not give a specification for.
use vstd::prelude::*;
use vstd::string::StringSliceAdditionalSpecFns;

verus! {

/// Whether `c` is a UTF-8 continuation byte.
pub open spec fn utf8_cont(c: u8) -> bool {
    0x80 <= c <= 0xBF
}

/// Length of the well-formed UTF-8 sequence that starts at `b[i]`, or 0 if
/// none does (the table of well-formed byte sequences of RFC 3629: no
/// overlong forms, no surrogates, nothing above U+10FFFF).
pub open spec fn utf8_seq_len(b: Seq<u8>, i: int) -> int {
    let n = b.len();
    let c = b[i];
    if c <= 0x7F {
        1
    } else if 0xC2 <= c <= 0xDF {
        if i + 1 < n && utf8_cont(b[i + 1]) { 2 } else { 0 }
    } else if 0xE0 <= c <= 0xEF {
        let lo: u8 = if c == 0xE0 { 0xA0 } else { 0x80 };
        let hi: u8 = if c == 0xED { 0x9F } else { 0xBF };
        if i + 2 < n && lo <= b[i + 1] <= hi && utf8_cont(b[i + 2]) { 3 } else { 0 }
    } else if 0xF0 <= c <= 0xF4 {
        let lo: u8 = if c == 0xF0 { 0x90 } else { 0x80 };
        let hi: u8 = if c == 0xF4 { 0x8F } else { 0xBF };
        if i + 3 < n && lo <= b[i + 1] <= hi && utf8_cont(b[i + 2]) && utf8_cont(b[i + 3]) { 4 } else { 0 }
    } else {
        0
    }
}

/// Whether `b[i..]` is a run of well-formed UTF-8 sequences.
pub open spec fn utf8_valid_from(b: Seq<u8>, i: int) -> bool
    decreases b.len() - i,
{
    if i < 0 || i >= b.len() {
        true
    } else {
        let k = utf8_seq_len(b, i);
        k > 0 && utf8_valid_from(b, i + k)
    }
}

/// Whether `b` is well-formed UTF-8.
pub open spec fn utf8_valid(b: Seq<u8>) -> bool {
    utf8_valid_from(b, 0)
}

/// Trusted: `core::str::from_utf8`. Its documentation says it succeeds
/// exactly on valid UTF-8 (`utf8_valid`) and then returns a `&str` over the
/// same bytes.
#[verifier::external_body]
pub(crate) fn str_from_utf8(b: &[u8]) -> (r: Option<&str>)
    ensures
        r is Some <==> utf8_valid(b@),
        r matches Some(s) ==> s.spec_bytes() == b@,
{
    core::str::from_utf8(b).ok()
}

} // verus!
