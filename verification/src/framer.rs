//! Length-prefixed request framing for the mixnet transport.
//!
//! An envelope is `[compact-size request id][compact-size-prefixed UTF-8
//! method name][compact-size-prefixed body bytes]`, and the declared body
//! length must equal the number of bytes that remain after the method name.
//! Compact-size values are minimally encoded: values below 253 stand inline
//! in one byte, larger values follow an escape byte (253, 254 or 255) as a
//! little-endian 2-, 4- or 8-byte integer.

use vstd::prelude::*;
use vstd::utf8::{valid_utf8, decode_utf8, encode_utf8};
use crate::error::FrameError;
use crate::util::{bytes_to_string, sub_vec};

verus! {

/// Minimal compact-size encoding of `n`.
pub open spec fn compact_size_enc(n: u64) -> Seq<u8> {
    if n < 253 {
        seq![n as u8]
    } else if n <= 0xFFFF {
        seq![253u8, (n % 256) as u8, ((n / 256) % 256) as u8]
    } else if n <= 0xFFFF_FFFF {
        seq![
            254u8,
            (n % 256) as u8,
            ((n / 256) % 256) as u8,
            ((n / 0x1_0000) % 256) as u8,
            ((n / 0x100_0000) % 256) as u8,
        ]
    } else {
        seq![
            255u8,
            (n % 256) as u8,
            ((n / 256) % 256) as u8,
            ((n / 0x1_0000) % 256) as u8,
            ((n / 0x100_0000) % 256) as u8,
            ((n / 0x1_0000_0000) % 256) as u8,
            ((n / 0x100_0000_0000) % 256) as u8,
            ((n / 0x1_0000_0000_0000) % 256) as u8,
            ((n / 0x100_0000_0000_0000) % 256) as u8,
        ]
    }
}

/// Value of the `w` little-endian bytes of `data` starting at `pos`.
pub open spec fn le_value(data: Seq<u8>, pos: int, w: int) -> int
    decreases w,
{
    if w <= 0 {
        0
    } else {
        data[pos] + 256 * le_value(data, pos + 1, w - 1)
    }
}

/// `256 ^ k`.
pub open spec fn pow256(k: nat) -> int
    decreases k,
{
    if k == 0 {
        1
    } else {
        256 * pow256((k - 1) as nat)
    }
}

/// Powers of 256 grow with the exponent.
pub proof fn lemma_pow256_le(a: nat, b: nat)
    requires
        a <= b,
    ensures
        0 < pow256(a) <= pow256(b),
    decreases b,
{
    if b > 0 {
        if a == b {
            lemma_pow256_le((a - 1) as nat, (b - 1) as nat);
        } else {
            lemma_pow256_le(a, (b - 1) as nat);
        }
    }
}

/// Result of reading one compact-size value at `pos`: the value and the
/// number of bytes consumed, or the framing error.
pub open spec fn read_compact_spec(data: Seq<u8>, pos: int) -> Result<(u64, int), FrameError> {
    if pos >= data.len() {
        Err(FrameError::Truncated)
    } else {
        let tag = data[pos];
        if tag < 253 {
            Ok((tag as u64, 1))
        } else {
            let w: int = if tag == 253 { 2 } else if tag == 254 { 4 } else { 8 };
            if pos + 1 + w > data.len() {
                Err(FrameError::Truncated)
            } else {
                let v = le_value(data, pos + 1, w);
                let minimal = if tag == 253 { v >= 253 } else if tag == 254 { v > 0xFFFF } else { v > 0xFFFF_FFFF };
                if minimal {
                    Ok((v as u64, 1 + w))
                } else {
                    Err(FrameError::NonCanonical)
                }
            }
        }
    }
}

/// Result of parsing a whole request envelope: request id, method name and
/// body, or the framing error.
pub open spec fn frame_parse(data: Seq<u8>) -> Result<(u64, Seq<char>, Seq<u8>), FrameError> {
    match read_compact_spec(data, 0) {
        Err(e) => Err(e),
        Ok((id, c1)) => match read_compact_spec(data, c1) {
            Err(e) => Err(e),
            Ok((mlen, c2)) => {
                let mstart = c1 + c2;
                if mstart + mlen > data.len() {
                    Err(FrameError::Truncated)
                } else {
                    let mbytes = data.subrange(mstart, mstart + mlen);
                    if !valid_utf8(mbytes) {
                        Err(FrameError::Encoding)
                    } else {
                        match read_compact_spec(data, mstart + mlen) {
                            Err(e) => Err(e),
                            Ok((blen, c3)) => {
                                let bstart = mstart + mlen + c3;
                                if blen != data.len() - bstart {
                                    Err(FrameError::LengthMismatch)
                                } else {
                                    Ok((id, decode_utf8(mbytes), data.subrange(bstart, data.len() as int)))
                                }
                            },
                        }
                    }
                }
            },
        },
    }
}

/// The request envelope for `id`, `method` and `body`.
pub open spec fn request_env(id: u64, method: Seq<char>, body: Seq<u8>) -> Seq<u8> {
    compact_size_enc(id) + compact_size_enc(encode_utf8(method).len() as u64) + encode_utf8(method)
        + compact_size_enc(body.len() as u64) + body
}

/// The response envelope for `id` and `body`: the same shape with an empty
/// method name, so that both directions of the transport parse alike.
pub open spec fn response_env(id: u64, body: Seq<u8>) -> Seq<u8> {
    request_env(id, Seq::<char>::empty(), body)
}

/// Little-endian bytes reconstruct the value they were taken from.
proof fn lemma_le_value_digits(data: Seq<u8>, pos: int, w: int, n: int)
    requires
        0 <= w,
        0 <= n < pow256(w as nat),
        forall|k: int| 0 <= k < w ==> #[trigger] data[pos + k] == (n / pow256(k as nat)) % 256,
    ensures
        le_value(data, pos, w) == n,
    decreases w,
{
    if w == 0 {
    } else {
        assert(pow256(0nat) == 1);
        assert(data[pos] == n % 256) by {
            assert(data[pos + 0] == (n / pow256(0nat)) % 256);
        }
        let m = n / 256;
        assert(0 <= m < pow256((w - 1) as nat)) by {
            assert(pow256(w as nat) == 256 * pow256((w - 1) as nat));
            lemma_pow256_le(0nat, (w - 1) as nat);
            assert(n < 256 * pow256((w - 1) as nat) ==> n / 256 < pow256((w - 1) as nat))
                by (nonlinear_arith);
        }
        assert forall|k: int| 0 <= k < w - 1 implies #[trigger] data[pos + 1 + k] == (m / pow256(
            k as nat,
        )) % 256 by {
            assert(data[pos + (k + 1)] == (n / pow256((k + 1) as nat)) % 256);
            assert(pow256((k + 1) as nat) == 256 * pow256(k as nat));
            lemma_pow256_le(0nat, k as nat);
            assert(n / (256 * pow256(k as nat)) == (n / 256) / pow256(k as nat)) by {
                vstd::arithmetic::div_mod::lemma_div_denominator(n, 256, pow256(k as nat));
            }
        }
        lemma_le_value_digits(data, pos + 1, w - 1, m);
        assert(le_value(data, pos, w) == data[pos] + 256 * le_value(data, pos + 1, w - 1));
        assert(n % 256 + 256 * (n / 256) == n);
    }
}

/// Reading a compact-size value at the start of its encoding, whatever
/// stands before and after it, yields the encoded value.
pub proof fn lemma_read_enc(pre: Seq<u8>, n: u64, suf: Seq<u8>)
    ensures
        read_compact_spec(pre + compact_size_enc(n) + suf, pre.len() as int) == Ok::<
            (u64, int),
            FrameError,
        >((n, compact_size_enc(n).len() as int)),
{
    let d = pre + compact_size_enc(n) + suf;
    let p = pre.len() as int;
    let e = compact_size_enc(n);
    assert forall|k: int| 0 <= k < e.len() implies d[p + k] == e[k] by {}
    reveal_with_fuel(pow256, 9);
    if n < 253 {
        assert(d[p] == e[0]);
    } else {
        let w: int = if n <= 0xFFFF { 2 } else if n <= 0xFFFF_FFFF { 4 } else { 8 };
        assert(forall|k: int| 0 <= k < w ==> #[trigger] d[p + 1 + k] == e[1 + k]);
        assert forall|k: int| 0 <= k < w implies #[trigger] d[p + 1 + k] == (n as int / pow256(
            k as nat,
        )) % 256 by {
            assert(d[p + 1 + k] == e[1 + k]);
        }
        lemma_le_value_digits(d, p + 1, w, n as int);
    }
}

/// Reads one minimally encoded compact-size value of `data` at `pos`.
pub fn compact_size_read(data: &Vec<u8>, pos: usize) -> (r: Result<(u64, usize), FrameError>)
    ensures
        match r {
            Ok((v, c)) => read_compact_spec(data@, pos as int) == Ok::<(u64, int), FrameError>((v, c as int)),
            Err(e) => read_compact_spec(data@, pos as int) == Err::<(u64, int), FrameError>(e),
        },
{
    if pos >= data.len() {
        return Err(FrameError::Truncated);
    }
    let tag: u8 = data[pos];
    if tag < 253 {
        return Ok((tag as u64, 1));
    }
    let w: usize = if tag == 253 { 2 } else if tag == 254 { 4 } else { 8 };
    if w > data.len() - pos - 1 {
        return Err(FrameError::Truncated);
    }
    let mut v: u64 = 0;
    let mut i: usize = w;
    while i > 0
        invariant
            i <= w,
            w == 2 || w == 4 || w == 8,
            pos + 1 + w <= data@.len(),
            pos + 1 + w <= usize::MAX,
            v == le_value(data@, pos + 1 + i, w - i),
            v < pow256((w - i) as nat),
        decreases i,
    {
        proof {
            lemma_pow256_le((w - i) as nat, 7);
            assert(pow256(7) == 0x100_0000_0000_0000) by {
                reveal_with_fuel(pow256, 8);
            }
        }
        i = i - 1;
        let b: u64 = data[pos + 1 + i] as u64;
        v = v * 256 + b;
        proof {
            assert(pow256((w - i) as nat) == 256 * pow256((w - i - 1) as nat));
        }
    }
    proof {
        assert(v == le_value(data@, pos + 1, w as int));
    }
    let minimal: bool = if tag == 253 { v >= 253 } else if tag == 254 { v > 0xFFFF } else { v > 0xFFFF_FFFF };
    if minimal {
        Ok((v, 1 + w))
    } else {
        Err(FrameError::NonCanonical)
    }
}

/// Appends the minimal compact-size encoding of `n` to `out`.
pub fn compact_size_write(out: &mut Vec<u8>, n: u64)
    ensures
        final(out)@ == old(out)@ + compact_size_enc(n),
{
    if n < 253 {
        out.push(n as u8);
    } else if n <= 0xFFFF {
        out.push(253);
        out.push((n % 256) as u8);
        out.push(((n / 256) % 256) as u8);
    } else if n <= 0xFFFF_FFFF {
        out.push(254);
        out.push((n % 256) as u8);
        out.push(((n / 256) % 256) as u8);
        out.push(((n / 0x1_0000) % 256) as u8);
        out.push(((n / 0x100_0000) % 256) as u8);
    } else {
        out.push(255);
        out.push((n % 256) as u8);
        out.push(((n / 256) % 256) as u8);
        out.push(((n / 0x1_0000) % 256) as u8);
        out.push(((n / 0x100_0000) % 256) as u8);
        out.push(((n / 0x1_0000_0000) % 256) as u8);
        out.push(((n / 0x100_0000_0000) % 256) as u8);
        out.push(((n / 0x1_0000_0000_0000) % 256) as u8);
        out.push(((n / 0x100_0000_0000_0000) % 256) as u8);
    }
    proof {
        assert(out@ =~= old(out)@ + compact_size_enc(n));
    }
}


/// Parses an inbound request envelope into its request id, method name and
/// body, exactly as [`frame_parse`] describes: the body must fill the rest
/// of the buffer, and the method name must be UTF-8.
pub fn parse_request(data: &Vec<u8>) -> (r: Result<(u64, String, Vec<u8>), FrameError>)
    ensures
        match r {
            Ok((id, m, b)) => frame_parse(data@) == Ok::<(u64, Seq<char>, Seq<u8>), FrameError>(
                (id, m@, b@),
            ),
            Err(e) => frame_parse(data@) == Err::<(u64, Seq<char>, Seq<u8>), FrameError>(e),
        },
{
    let (id, c1) = match compact_size_read(data, 0) {
        Ok(x) => x,
        Err(e) => {
            return Err(e);
        },
    };
    let (mlen, c2) = match compact_size_read(data, c1) {
        Ok(x) => x,
        Err(e) => {
            return Err(e);
        },
    };
    let mstart = c1 + c2;
    if mlen > (data.len() - mstart) as u64 {
        return Err(FrameError::Truncated);
    }
    let mend = mstart + mlen as usize;
    let mvec = sub_vec(data, mstart, mend);
    let method = match bytes_to_string(mvec) {
        Some(s) => s,
        None => {
            return Err(FrameError::Encoding);
        },
    };
    let (blen, c3) = match compact_size_read(data, mend) {
        Ok(x) => x,
        Err(e) => {
            return Err(e);
        },
    };
    let bstart = mend + c3;
    if blen != (data.len() - bstart) as u64 {
        return Err(FrameError::LengthMismatch);
    }
    let body = sub_vec(data, bstart, data.len());
    Ok((id, method, body))
}

/// Extracts the request id, method name and body of an inbound envelope.
pub fn read_nym_request_data(data: &Vec<u8>) -> (r: Result<(u64, String, Vec<u8>), FrameError>)
    ensures
        match r {
            Ok((id, m, b)) => frame_parse(data@) == Ok::<(u64, Seq<char>, Seq<u8>), FrameError>(
                (id, m@, b@),
            ),
            Err(e) => frame_parse(data@) == Err::<(u64, Seq<char>, Seq<u8>), FrameError>(e),
        },
{
    parse_request(data)
}

/// Builds the outbound request envelope for `id`, `method` and `body`.
pub fn serialize_request(id: u64, method: &str, body: &Vec<u8>) -> (r: Vec<u8>)
    ensures
        r@ == request_env(id, method@, body@),
{
    let mbytes: &[u8] = method.as_bytes();
    let mut out: Vec<u8> = Vec::new();
    compact_size_write(&mut out, id);
    compact_size_write(&mut out, mbytes.len() as u64);
    out.extend_from_slice(mbytes);
    compact_size_write(&mut out, body.len() as u64);
    out.extend_from_slice(body.as_slice());
    proof {
        assert(out@ =~= request_env(id, method@, body@));
    }
    out
}

/// Builds the outbound response envelope for `id` and `body`.
pub fn serialize_response(id: u64, body: &Vec<u8>) -> (r: Vec<u8>)
    ensures
        r@ == response_env(id, body@),
{
    let r = serialize_request(id, "", body);
    proof {
        reveal_strlit("");
        assert(""@ =~= Seq::<char>::empty());
    }
    r
}

/// Parsing an envelope that [`request_env`] built yields the id, method and
/// body it was built from, for every id, every method name and every body
/// whose encodings fit the compact-size range.
pub proof fn lemma_request_round_trip(id: u64, method: Seq<char>, body: Seq<u8>)
    requires
        encode_utf8(method).len() <= u64::MAX,
        body.len() <= u64::MAX,
    ensures
        frame_parse(request_env(id, method, body)) == Ok::<
            (u64, Seq<char>, Seq<u8>),
            FrameError,
        >((id, method, body)),
{
    broadcast use vstd::utf8::encode_utf8_valid_utf8, vstd::utf8::encode_utf8_decode_utf8;

    let mb = encode_utf8(method);
    let mlen = mb.len() as u64;
    let blen = body.len() as u64;
    let e1 = compact_size_enc(id);
    let e2 = compact_size_enc(mlen);
    let e3 = compact_size_enc(blen);
    let d = request_env(id, method, body);
    assert(d =~= Seq::<u8>::empty() + e1 + (e2 + mb + e3 + body));
    lemma_read_enc(Seq::<u8>::empty(), id, e2 + mb + e3 + body);
    assert(read_compact_spec(d, 0) == Ok::<(u64, int), FrameError>((id, e1.len() as int)));
    assert(d =~= e1 + e2 + (mb + e3 + body));
    lemma_read_enc(e1, mlen, mb + e3 + body);
    let mstart = e1.len() + e2.len();
    assert(read_compact_spec(d, e1.len() as int) == Ok::<(u64, int), FrameError>(
        (mlen, e2.len() as int),
    ));
    let mend = mstart + mb.len();
    assert(d.subrange(mstart as int, mend as int) =~= mb);
    assert(d =~= (e1 + e2 + mb) + e3 + body);
    lemma_read_enc(e1 + e2 + mb, blen, body);
    assert(read_compact_spec(d, mend as int) == Ok::<(u64, int), FrameError>(
        (blen, e3.len() as int),
    ));
    let bstart = mend + e3.len();
    assert(d.len() - bstart == body.len());
    assert(d.subrange(bstart as int, d.len() as int) =~= body);
    assert(valid_utf8(mb));
    assert(decode_utf8(mb) == method);
}


/// Parsing an envelope that [`response_env`] built yields the id, the empty
/// method name and the body it was built from.
pub proof fn lemma_response_round_trip(id: u64, body: Seq<u8>)
    requires
        body.len() <= u64::MAX,
    ensures
        frame_parse(response_env(id, body)) == Ok::<(u64, Seq<char>, Seq<u8>), FrameError>(
            (id, Seq::<char>::empty(), body),
        ),
{
    assert(encode_utf8(Seq::<char>::empty()) =~= Seq::<u8>::empty());
    lemma_request_round_trip(id, Seq::<char>::empty(), body);
}

} // verus!
