//! The key input format: exactly 64 hexadecimal characters, decoded
//! big-endian byte-pairs into 32 raw key bytes. Surrounding whitespace is
//! tolerated; anything else fails validation before any cryptographic work.

use vstd::prelude::*;

use vstd::string::StringSliceAdditionalSpecFns;

use crate::errors::TeeError;
use crate::AES_KEY_SIZE;

verus! {

/// ASCII whitespace as the trimmer understands it.
pub open spec fn is_ascii_ws(c: u8) -> bool {
    c == 32 || c == 9 || c == 10 || c == 13
}

/// The byte sequence with leading and trailing ASCII whitespace removed.
pub open spec fn trimmed(s: Seq<u8>) -> Seq<u8>
    decreases s.len(),
{
    if s.len() == 0 {
        s
    } else if is_ascii_ws(s[0]) {
        trimmed(s.skip(1))
    } else if is_ascii_ws(s[s.len() - 1]) {
        trimmed(s.take(s.len() - 1))
    } else {
        s
    }
}

/// Whether a byte is a hexadecimal digit, in either case.
pub open spec fn is_hex_digit(c: u8) -> bool {
    (48 <= c <= 57) || (97 <= c <= 102) || (65 <= c <= 70)
}

/// The value of a hexadecimal digit.
pub open spec fn hex_val(c: u8) -> u8 {
    if 48 <= c <= 57 {
        (c - 48) as u8
    } else if 97 <= c <= 102 {
        (c - 87) as u8
    } else if 65 <= c <= 70 {
        (c - 55) as u8
    } else {
        0
    }
}

/// The bytes a sequence of hexadecimal digit pairs decodes to.
pub open spec fn hex_decoded(s: Seq<u8>) -> Seq<u8> {
    Seq::new(s.len() / 2, |i: int| ((hex_val(s[2 * i]) as int) * 16 + hex_val(s[2 * i + 1]) as int) as u8)
}

/// A window with only whitespace outside it and none at its own ends is what
/// `trimmed` leaves.
proof fn lemma_trimmed_subrange(s: Seq<u8>, lo: int, hi: int)
    requires
        0 <= lo <= hi <= s.len(),
        forall|k: int| 0 <= k < lo ==> is_ascii_ws(s[k]),
        forall|k: int| hi <= k < s.len() ==> is_ascii_ws(s[k]),
        lo < hi ==> !is_ascii_ws(s[lo]) && !is_ascii_ws(s[hi - 1]),
    ensures
        trimmed(s) == s.subrange(lo, hi),
    decreases s.len(),
{
    if s.len() == 0 {
        assert(s.subrange(0, 0) =~= s);
    } else if is_ascii_ws(s[0]) {
        if lo > 0 {
            lemma_trimmed_subrange(s.skip(1), lo - 1, hi - 1);
            assert(s.skip(1).subrange(lo - 1, hi - 1) =~= s.subrange(lo, hi));
        } else {
            assert(lo == 0 && hi == 0);
            lemma_trimmed_subrange(s.skip(1), 0, 0);
            assert(s.skip(1).subrange(0, 0) =~= s.subrange(0, 0));
        }
    } else if is_ascii_ws(s[s.len() - 1]) {
        assert(lo == 0);
        assert(hi < s.len());
        lemma_trimmed_subrange(s.take(s.len() - 1), lo, hi);
        assert(s.take(s.len() - 1).subrange(lo, hi) =~= s.subrange(lo, hi));
    } else {
        assert(lo == 0 && hi == s.len());
        assert(s.subrange(0, s.len() as int) =~= s);
    }
}

/// Whether a byte is ASCII whitespace.
fn is_ws_byte(c: u8) -> (r: bool)
    ensures
        r == is_ascii_ws(c),
{
    c == 32 || c == 9 || c == 10 || c == 13
}

/// Whether a byte is a hexadecimal digit, and its value.
fn hex_val_byte(c: u8) -> (r: Option<u8>)
    ensures
        r is Some <==> is_hex_digit(c),
        r is Some ==> r->0 == hex_val(c) && r->0 < 16,
{
    if 48 <= c && c <= 57 {
        Some(c - 48)
    } else if 97 <= c && c <= 102 {
        Some(c - 87)
    } else if 65 <= c && c <= 70 {
        Some(c - 55)
    } else {
        None
    }
}

/// Decodes an even run of bytes as hexadecimal digit pairs; the first
/// non-digit fails the whole run.
fn decode_hex_pairs(b: &[u8], lo: usize, hi: usize) -> (r: Result<Vec<u8>, TeeError>)
    requires
        lo <= hi <= b@.len(),
        (hi - lo) % 2 == 0,
    ensures
        ({
            let t = b@.subrange(lo as int, hi as int);
            &&& (r is Ok <==> forall|j: int| 0 <= j < t.len() ==> is_hex_digit(#[trigger] t[j]))
            &&& (r is Ok ==> r->Ok_0@ == hex_decoded(t))
            &&& (r is Err ==> r->Err_0 == TeeError::BadParameters)
        }),
{
    let ghost t = b@.subrange(lo as int, hi as int);
    let mut out: Vec<u8> = Vec::new();
    let mut i: usize = lo;
    while i < hi
        invariant
            lo <= i <= hi <= b@.len(),
            (i - lo) % 2 == 0,
            (hi - lo) % 2 == 0,
            t == b@.subrange(lo as int, hi as int),
            out@.len() == (i - lo) / 2,
            forall|j: int| 0 <= j < out@.len() ==> out@[j] == hex_decoded(t)[j],
            forall|k: int| 0 <= k < i - lo ==> is_hex_digit(#[trigger] t[k]),
        decreases hi - i,
    {
        let d1 = match hex_val_byte(b[i]) {
            Some(d) => d,
            None => {
                assert(!is_hex_digit(t[(i - lo) as int]));
                return Err(TeeError::BadParameters);
            },
        };
        let d2 = match hex_val_byte(b[i + 1]) {
            Some(d) => d,
            None => {
                assert(!is_hex_digit(t[(i + 1 - lo) as int]));
                return Err(TeeError::BadParameters);
            },
        };
        out.push(d1 * 16 + d2);
        i = i + 2;
    }
    proof {
        assert(out@ =~= hex_decoded(t));
    }
    Ok(out)
}

/// Parses a 64-hex-character string, surrounding whitespace tolerated, into
/// the 32 raw key bytes it spells. Any other length, or any non-hex
/// character, fails with `BadParameters` and nothing else is attempted.
pub fn parse_hex_key_32(hex_str: &str) -> (r: Result<Vec<u8>, TeeError>)
    ensures
        ({
            let t = trimmed(hex_str.spec_bytes());
            &&& (r is Ok <==> (t.len() == 2 * AES_KEY_SIZE && forall|j: int|
                0 <= j < t.len() ==> is_hex_digit(#[trigger] t[j])))
            &&& (r is Ok ==> r->Ok_0@ == hex_decoded(t) && r->Ok_0@.len() == AES_KEY_SIZE)
            &&& (r is Err ==> r->Err_0 == TeeError::BadParameters)
        }),
{
    let b = hex_str.as_bytes();
    let mut lo: usize = 0;
    while lo < b.len() && is_ws_byte(b[lo])
        invariant
            lo <= b@.len(),
            forall|k: int| 0 <= k < lo ==> is_ascii_ws(b@[k]),
        decreases b@.len() - lo,
    {
        lo = lo + 1;
    }
    let mut hi: usize = b.len();
    while hi > lo && is_ws_byte(b[hi - 1])
        invariant
            lo <= hi <= b@.len(),
            forall|k: int| hi <= k < b@.len() ==> is_ascii_ws(b@[k]),
        decreases hi,
    {
        hi = hi - 1;
    }
    proof {
        lemma_trimmed_subrange(b@, lo as int, hi as int);
    }
    if hi - lo != 2 * AES_KEY_SIZE {
        return Err(TeeError::BadParameters);
    }
    decode_hex_pairs(b, lo, hi)
}

} // verus!
