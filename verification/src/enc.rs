//! Byte-level encoding helpers shared by the packet serializer: big-endian
//! integers and the variable-width packet length encoding of RFC 9580
//! (one octet below 192, two octets below 8384, five octets otherwise —
//! always the smallest width that fits).

use vstd::prelude::*;

verus! {

/// The big-endian four-byte encoding of a 32-bit value.
pub open spec fn be32_spec(v: u32) -> Seq<u8> {
    seq![(v >> 24) as u8, (v >> 16) as u8, (v >> 8) as u8, v as u8]
}

/// The big-endian two-byte encoding of a 16-bit value.
pub open spec fn be16_spec(v: u16) -> Seq<u8> {
    seq![(v >> 8) as u8, v as u8]
}

/// Append the big-endian four-byte encoding of `v` to `out`.
pub fn push_be32(out: &mut Vec<u8>, v: u32)
    ensures
        final(out)@ == old(out)@ + be32_spec(v),
{
    out.push((v >> 24) as u8);
    out.push((v >> 16) as u8);
    out.push((v >> 8) as u8);
    out.push(v as u8);
    assert(out@ =~= old(out)@ + be32_spec(v));
}

/// Append the big-endian two-byte encoding of `v` to `out`.
pub fn push_be16(out: &mut Vec<u8>, v: u16)
    ensures
        final(out)@ == old(out)@ + be16_spec(v),
{
    out.push((v >> 8) as u8);
    out.push(v as u8);
    assert(out@ =~= old(out)@ + be16_spec(v));
}

/// Append every byte of `src` to `out`.
pub fn push_bytes(out: &mut Vec<u8>, src: &Vec<u8>)
    ensures
        final(out)@ == old(out)@ + src@,
{
    let mut i: usize = 0;
    while i < src.len()
        invariant
            i <= src.len(),
            out@ == old(out)@ + src@.take(i as int),
        decreases src.len() - i,
    {
        out.push(src[i]);
        assert(src@.take(i as int).push(src@[i as int]) =~= src@.take(i + 1));
        i = i + 1;
    }
    assert(src@.take(src@.len() as int) =~= src@);
}

/// A fresh copy of a byte vector.
pub fn copy_bytes(src: &Vec<u8>) -> (r: Vec<u8>)
    ensures
        r@ == src@,
{
    let mut out: Vec<u8> = Vec::new();
    push_bytes(&mut out, src);
    out
}

/// The number of octets the length encoding uses for a body of `n` bytes:
/// the smallest sufficient width, never an arbitrary one.
pub open spec fn len_enc_width(n: nat) -> nat {
    if n < 192 {
        1
    } else if n < 8384 {
        2
    } else {
        5
    }
}

/// The variable-width length encoding itself.
pub open spec fn len_enc(n: nat) -> Seq<u8>
    recommends
        n <= u32::MAX,
{
    if n < 192 {
        seq![n as u8]
    } else if n < 8384 {
        seq![(192 + ((n - 192) / 256)) as u8, ((n - 192) % 256) as u8]
    } else {
        seq![255u8] + be32_spec(n as u32)
    }
}

/// The number of octets that the length header for a body of `n` bytes takes.
pub fn fixed_encoding_len(n: u32) -> (r: usize)
    ensures
        r == len_enc_width(n as nat),
{
    if n < 192 {
        1
    } else if n < 8384 {
        2
    } else {
        5
    }
}

/// Append the variable-width length encoding of `n` to `out`.
pub fn push_len_enc(out: &mut Vec<u8>, n: u32)
    ensures
        final(out)@ == old(out)@ + len_enc(n as nat),
{
    if n < 192 {
        out.push(n as u8);
        assert(out@ =~= old(out)@ + len_enc(n as nat));
    } else if n < 8384 {
        out.push((192 + ((n - 192) / 256)) as u8);
        out.push(((n - 192) % 256) as u8);
        assert(out@ =~= old(out)@ + len_enc(n as nat));
    } else {
        out.push(255u8);
        push_be32(out, n);
        assert(out@ =~= old(out)@ + len_enc(n as nat));
    }
}

} // verus!
