//! Canonical hex-string mapping for binary fields.
//!
//! Every binary field of the wire protocol (hashes, scripts, transaction
//! bytes) round-trips through this mapping: each byte becomes two hex
//! digits, most significant nibble first. Decoding accepts both digit
//! cases; encoding emits lower case. The specs speak of the string's
//! UTF-8 bytes, which for hex digits are its ASCII characters.

use vstd::prelude::*;
use vstd::utf8::{valid_utf8, decode_utf8};
use vstd::string::StringSliceAdditionalSpecFns;
use crate::error::DecodeError;
use crate::util::bytes_to_string;

verus! {

/// True of the ASCII code of a hex digit.
pub open spec fn is_hex_ascii(c: u8) -> bool {
    (0x30 <= c <= 0x39) || (0x61 <= c <= 0x66) || (0x41 <= c <= 0x46)
}

/// Value of a hex digit given by its ASCII code.
pub open spec fn hex_val(c: u8) -> int {
    if 0x30 <= c <= 0x39 {
        c - 0x30
    } else if 0x61 <= c <= 0x66 {
        c - 0x61 + 10
    } else {
        c - 0x41 + 10
    }
}

/// Lower-case ASCII code of the hex digit for `n`.
pub open spec fn hex_digit(n: int) -> u8 {
    if n < 10 {
        (0x30 + n) as u8
    } else {
        (0x61 + n - 10) as u8
    }
}

/// True when `s` is a well-formed hex string: even length, hex digits only.
pub open spec fn hex_ok(s: Seq<u8>) -> bool {
    s.len() % 2 == 0 && forall|i: int| 0 <= i < s.len() ==> is_hex_ascii(#[trigger] s[i])
}

/// The bytes a well-formed hex string denotes.
pub open spec fn hex_bytes(s: Seq<u8>) -> Seq<u8> {
    Seq::new((s.len() / 2) as nat, |i: int| (hex_val(s[2 * i]) * 16 + hex_val(s[2 * i + 1])) as u8)
}

/// The canonical lower-case hex string for `b`, as ASCII codes.
pub open spec fn hex_of(b: Seq<u8>) -> Seq<u8> {
    Seq::new(
        (2 * b.len()) as nat,
        |i: int| if i % 2 == 0 {
            hex_digit((b[i / 2] as int) / 16)
        } else {
            hex_digit((b[i / 2] as int) % 16)
        },
    )
}

/// Every byte sequence survives the round trip through its hex string.
pub proof fn lemma_hex_round_trip(b: Seq<u8>)
    ensures
        hex_ok(hex_of(b)),
        hex_bytes(hex_of(b)) == b,
{
    let s = hex_of(b);
    assert forall|i: int| 0 <= i < s.len() implies is_hex_ascii(#[trigger] s[i]) by {}
    assert forall|i: int| 0 <= i < b.len() implies hex_bytes(s)[i] == b[i] by {
        assert(s[2 * i] == hex_digit((b[i] as int) / 16));
        assert(s[2 * i + 1] == hex_digit((b[i] as int) % 16));
        assert((2 * i + 1) / 2 == i);
        assert(hex_val(hex_digit((b[i] as int) / 16)) == (b[i] as int) / 16);
        assert(hex_val(hex_digit((b[i] as int) % 16)) == (b[i] as int) % 16);
        assert((b[i] / 16) * 16 + b[i] % 16 == b[i]);
    }
    assert(hex_bytes(s) =~= b);
}

/// Value of one hex digit's ASCII code, or `None` off the digits.
fn hex_val_exec(c: u8) -> (r: Option<u8>)
    ensures
        r is Some <==> is_hex_ascii(c),
        r matches Some(v) ==> v == hex_val(c),
{
    if 0x30 <= c && c <= 0x39 {
        Some(c - 0x30)
    } else if 0x61 <= c && c <= 0x66 {
        Some(c - 0x61 + 10)
    } else if 0x41 <= c && c <= 0x46 {
        Some(c - 0x41 + 10)
    } else {
        None
    }
}

/// Decodes a hex string to its bytes; fails with [`DecodeError::MalformedHex`]
/// exactly on odd-length or non-hex input.
pub fn hex_decode(s: &str) -> (r: Result<Vec<u8>, DecodeError>)
    ensures
        r is Ok <==> hex_ok(s.spec_bytes()),
        r matches Ok(b) ==> b@ == hex_bytes(s.spec_bytes()),
        r is Err ==> r == Err::<Vec<u8>, DecodeError>(DecodeError::MalformedHex),
{
    let bs: &[u8] = s.as_bytes();
    let n = bs.len();
    if n % 2 != 0 {
        return Err(DecodeError::MalformedHex);
    }
    let mut out: Vec<u8> = Vec::new();
    let mut i: usize = 0;
    while i < n
        invariant
            i % 2 == 0,
            i <= n,
            n == s.spec_bytes().len(),
            n % 2 == 0,
            bs@ == s.spec_bytes(),
            forall|k: int| 0 <= k < i ==> is_hex_ascii(#[trigger] s.spec_bytes()[k]),
            out@ == hex_bytes(s.spec_bytes().subrange(0, i as int)),
        decreases n - i,
    {
        let c0 = *vstd::slice::slice_index_get(bs, i);
        let c1 = *vstd::slice::slice_index_get(bs, i + 1);
        let v0 = match hex_val_exec(c0) {
            Some(v) => v,
            None => {
                return Err(DecodeError::MalformedHex);
            },
        };
        let v1 = match hex_val_exec(c1) {
            Some(v) => v,
            None => {
                return Err(DecodeError::MalformedHex);
            },
        };
        out.push(v0 * 16 + v1);
        i = i + 2;
        proof {
            assert(out@ =~= hex_bytes(s.spec_bytes().subrange(0, i as int)));
        }
    }
    proof {
        assert(s.spec_bytes().subrange(0, n as int) =~= s.spec_bytes());
    }
    Ok(out)
}

/// Encodes bytes as their canonical lower-case hex string.
pub fn hex_encode(b: &Vec<u8>) -> (r: String)
    ensures
        vstd::utf8::encode_utf8(r@) == hex_of(b@),
{
    let mut out: Vec<u8> = Vec::new();
    let mut i: usize = 0;
    while i < b.len()
        invariant
            i <= b@.len(),
            out@ == hex_of(b@.subrange(0, i as int)),
        decreases b@.len() - i,
    {
        let byte = b[i];
        let hi = byte / 16;
        let lo = byte % 16;
        out.push(if hi < 10 { 0x30 + hi } else { 0x61 + hi - 10 });
        out.push(if lo < 10 { 0x30 + lo } else { 0x61 + lo - 10 });
        i = i + 1;
        proof {
            assert(out@ =~= hex_of(b@.subrange(0, i as int)));
        }
    }
    proof {
        assert(b@.subrange(0, b@.len() as int) =~= b@);
        assert forall|k: int| 0 <= k < out@.len() implies vstd::utf8::is_leading_byte_width_1(
            #[trigger] out@[k],
        ) by {
            assert(is_hex_ascii(hex_of(b@)[k]));
        }
        assert(vstd::utf8::partial_valid_utf8(out@, 0)) by {
            assert(out@.subrange(0, 0) =~= Seq::<u8>::empty());
        }
        vstd::utf8::partial_valid_utf8_extend_ascii_block(out@, 0, out@.len() as int);
        assert(out@.subrange(0, out@.len() as int) =~= out@);
        assert(valid_utf8(out@));
    }
    let ghost out_bytes = out@;
    let r = bytes_to_string(out).unwrap();
    proof {
        vstd::utf8::decode_utf8_encode_utf8(out_bytes);
    }
    r
}

} // verus!
