//! ASCII-armored output: base64 text in 64-column lines between BEGIN and
//! END framing lines, optional header fields, and the optional CRC-24
//! checksum trailer of RFC 9580.

use vstd::prelude::*;

use crate::cert::{cert_bytes, cert_wf, SignedPublicKey};
use crate::types::Error;
use crate::wire::concat_map;
use vstd::utf8::{decode_utf8, valid_utf8};

verus! {

/// The kinds of armored blocks this library can name.
#[derive(Debug, Clone, Copy, PartialEq, Eq, Structural)]
pub enum BlockType {
    PublicKey,
    PrivateKey,
    Message,
    Signature,
    File,
}

impl SignedPublicKey {
    /// Whether an armored block of type `typ` may hold a certificate:
    /// public-key blocks and generic file blocks do.
    pub fn matches_block_type(typ: BlockType) -> (r: bool)
        ensures
            r == (typ == BlockType::PublicKey || typ == BlockType::File),
    {
        match typ {
            BlockType::PublicKey => true,
            BlockType::File => true,
            _ => false,
        }
    }
}

/// The ghost image of `ArmorHeader`.
pub ghost struct ArmorHeaderV {
    pub key: Seq<u8>,
    pub value: Seq<u8>,
}

/// One armor header field, rendered as `key: value`.
#[derive(Debug, Clone, PartialEq, Eq)]
pub struct ArmorHeader {
    pub key: Vec<u8>,
    pub value: Vec<u8>,
}

impl View for ArmorHeader {
    type V = ArmorHeaderV;

    open spec fn view(&self) -> ArmorHeaderV {
        ArmorHeaderV { key: self.key@, value: self.value@ }
    }
}

/// The ghost image of `ArmorOptions`.
pub ghost struct ArmorOptionsV {
    pub headers: Seq<ArmorHeaderV>,
    pub include_checksum: bool,
}

/// Options for armored output: header fields to emit, and whether to
/// append the checksum trailer.
#[derive(Debug, Clone, PartialEq, Eq)]
pub struct ArmorOptions {
    pub headers: Vec<ArmorHeader>,
    pub include_checksum: bool,
}

/// The ghost images of a list of armor headers.
pub open spec fn header_views(s: Seq<ArmorHeader>) -> Seq<ArmorHeaderV> {
    s.map_values(|h: ArmorHeader| h@)
}

impl View for ArmorOptions {
    type V = ArmorOptionsV;

    open spec fn view(&self) -> ArmorOptionsV {
        ArmorOptionsV {
            headers: header_views(self.headers@),
            include_checksum: self.include_checksum,
        }
    }
}

impl Default for ArmorOptions {
    /// No headers, with the checksum trailer included.
    fn default() -> (r: ArmorOptions)
        ensures
            r@.headers.len() == 0,
            r@.include_checksum,
    {
        ArmorOptions { headers: Vec::new(), include_checksum: true }
    }
}

/// The base64 alphabet, by six-bit value.
pub open spec fn b64_char(v: u8) -> u8
    recommends
        v < 64,
{
    if v < 26 {
        (65 + v) as u8
    } else if v < 52 {
        (97 + (v - 26)) as u8
    } else if v < 62 {
        (48 + (v - 52)) as u8
    } else if v == 62 {
        43
    } else {
        47
    }
}

/// The base64 encoding of a byte sequence, with `=` padding.
pub open spec fn b64_spec(s: Seq<u8>) -> Seq<u8>
    decreases s.len(),
{
    if s.len() == 0 {
        Seq::<u8>::empty()
    } else if s.len() == 1 {
        seq![
            b64_char(s[0] >> 2),
            b64_char((s[0] & 3) << 4),
            61u8,
            61u8,
        ]
    } else if s.len() == 2 {
        seq![
            b64_char(s[0] >> 2),
            b64_char(((s[0] & 3) << 4) | (s[1] >> 4)),
            b64_char((s[1] & 15) << 2),
            61u8,
        ]
    } else {
        seq![
            b64_char(s[0] >> 2),
            b64_char(((s[0] & 3) << 4) | (s[1] >> 4)),
            b64_char(((s[1] & 15) << 2) | (s[2] >> 6)),
            b64_char(s[2] & 63),
        ] + b64_spec(s.skip(3))
    }
}

/// One step of the CRC-24 bit loop.
pub open spec fn crc_bit(c: u32) -> u32 {
    if c & 0x800000 != 0 {
        ((c << 1) ^ 0x1864CFB) & 0xFFFFFF
    } else {
        (c << 1) & 0xFFFFFF
    }
}

/// Absorb one byte into the CRC-24 state.
pub open spec fn crc_step(c: u32, b: u8) -> u32 {
    crc_bit(crc_bit(crc_bit(crc_bit(crc_bit(crc_bit(crc_bit(crc_bit(
        c ^ (((b as u32)) << 16),
    ))))))))
}

/// Absorb a byte sequence into the CRC-24 state, front to back.
pub open spec fn crc_absorb(c: u32, s: Seq<u8>) -> u32
    decreases s.len(),
{
    if s.len() == 0 {
        c
    } else {
        crc_absorb(crc_step(c, s[0]), s.skip(1))
    }
}

/// Absorbing `s + [b]` is absorbing `s`, then stepping with `b`.
pub proof fn lemma_crc_absorb_snoc(c: u32, s: Seq<u8>, b: u8)
    ensures
        crc_absorb(c, s.push(b)) == crc_step(crc_absorb(c, s), b),
    decreases s.len(),
{
    if s.len() == 0 {
        assert(s.push(b)[0] == b);
        assert(s.push(b).skip(1) =~= Seq::<u8>::empty());
        assert(crc_absorb(c, s.push(b)) == crc_absorb(crc_step(c, b), Seq::<u8>::empty()));
        assert(crc_absorb(c, s) == c);
    } else {
        assert(s.push(b)[0] == s[0]);
        assert(s.push(b).skip(1) =~= s.skip(1).push(b));
        lemma_crc_absorb_snoc(crc_step(c, s[0]), s.skip(1), b);
        assert(crc_absorb(c, s.push(b)) == crc_absorb(crc_step(c, s[0]), s.skip(1).push(b)));
        assert(crc_absorb(c, s) == crc_absorb(crc_step(c, s[0]), s.skip(1)));
    }
}

/// The CRC-24 of a byte sequence, from the initial state of RFC 9580.
pub open spec fn crc24_spec(s: Seq<u8>) -> u32 {
    crc_absorb(0xB704CE, s)
}

/// The three big-endian bytes of the CRC-24.
pub open spec fn crc24_bytes(s: Seq<u8>) -> Seq<u8> {
    seq![(crc24_spec(s) >> 16) as u8, (crc24_spec(s) >> 8) as u8, crc24_spec(s) as u8]
}

/// The BEGIN framing line.
pub open spec fn begin_line() -> Seq<u8> {
    seq![45u8, 45u8, 45u8, 45u8, 45u8, 66u8, 69u8, 71u8, 73u8, 78u8, 32u8, 80u8, 71u8, 80u8, 32u8, 80u8, 85u8, 66u8, 76u8, 73u8, 67u8, 32u8, 75u8, 69u8, 89u8, 32u8, 66u8, 76u8, 79u8, 67u8, 75u8, 45u8, 45u8, 45u8, 45u8, 45u8, 10u8]
}

/// The END framing line.
pub open spec fn end_line() -> Seq<u8> {
    seq![45u8, 45u8, 45u8, 45u8, 45u8, 69u8, 78u8, 68u8, 32u8, 80u8, 71u8, 80u8, 32u8, 80u8, 85u8, 66u8, 76u8, 73u8, 67u8, 32u8, 75u8, 69u8, 89u8, 32u8, 66u8, 76u8, 79u8, 67u8, 75u8, 45u8, 45u8, 45u8, 45u8, 45u8, 10u8]
}

/// One rendered header field: `key: value` and a line break.
pub open spec fn header_line(h: ArmorHeaderV) -> Seq<u8> {
    h.key + seq![58u8, 32u8] + h.value + seq![10u8]
}

/// `header_line` as a value, for the list-level concatenation.
pub open spec fn header_line_fn() -> spec_fn(ArmorHeaderV) -> Seq<u8> {
    |h: ArmorHeaderV| header_line(h)
}

/// Base64 text broken into 64-column lines, each ended by a line break.
pub open spec fn wrap64(s: Seq<u8>) -> Seq<u8>
    decreases s.len(),
{
    if s.len() == 0 {
        Seq::<u8>::empty()
    } else if s.len() <= 64 {
        s + seq![10u8]
    } else {
        s.take(64) + seq![10u8] + wrap64(s.skip(64))
    }
}

/// The checksum trailer: `=`, the base64 CRC-24, and a line break.
pub open spec fn checksum_part(data: Seq<u8>, with_crc: bool) -> Seq<u8> {
    if with_crc {
        seq![61u8] + b64_spec(crc24_bytes(data)) + seq![10u8]
    } else {
        Seq::<u8>::empty()
    }
}

/// The whole armored rendering of `data` under `opts`.
pub open spec fn armored_bytes(data: Seq<u8>, opts: ArmorOptionsV) -> Seq<u8> {
    begin_line() + concat_map(opts.headers, header_line_fn()) + seq![10u8] + wrap64(b64_spec(data))
        + checksum_part(data, opts.include_checksum) + end_line()
}

/// Append the BEGIN framing line to `out`.
fn push_begin_line(out: &mut Vec<u8>)
    ensures
        final(out)@ == old(out)@ + begin_line(),
{
        out.push(45u8);
        out.push(45u8);
        out.push(45u8);
        out.push(45u8);
        out.push(45u8);
        out.push(66u8);
        out.push(69u8);
        out.push(71u8);
        out.push(73u8);
        out.push(78u8);
        out.push(32u8);
        out.push(80u8);
        out.push(71u8);
        out.push(80u8);
        out.push(32u8);
        out.push(80u8);
        out.push(85u8);
        out.push(66u8);
        out.push(76u8);
        out.push(73u8);
        out.push(67u8);
        out.push(32u8);
        out.push(75u8);
        out.push(69u8);
        out.push(89u8);
        out.push(32u8);
        out.push(66u8);
        out.push(76u8);
        out.push(79u8);
        out.push(67u8);
        out.push(75u8);
        out.push(45u8);
        out.push(45u8);
        out.push(45u8);
        out.push(45u8);
        out.push(45u8);
        out.push(10u8);
    assert(out@ =~= old(out)@ + begin_line());
}

/// Append the END framing line to `out`.
fn push_end_line(out: &mut Vec<u8>)
    ensures
        final(out)@ == old(out)@ + end_line(),
{
        out.push(45u8);
        out.push(45u8);
        out.push(45u8);
        out.push(45u8);
        out.push(45u8);
        out.push(69u8);
        out.push(78u8);
        out.push(68u8);
        out.push(32u8);
        out.push(80u8);
        out.push(71u8);
        out.push(80u8);
        out.push(32u8);
        out.push(80u8);
        out.push(85u8);
        out.push(66u8);
        out.push(76u8);
        out.push(73u8);
        out.push(67u8);
        out.push(32u8);
        out.push(75u8);
        out.push(69u8);
        out.push(89u8);
        out.push(32u8);
        out.push(66u8);
        out.push(76u8);
        out.push(79u8);
        out.push(67u8);
        out.push(75u8);
        out.push(45u8);
        out.push(45u8);
        out.push(45u8);
        out.push(45u8);
        out.push(45u8);
        out.push(10u8);
    assert(out@ =~= old(out)@ + end_line());
}

/// The base64 alphabet, by six-bit value.
fn b64_char_at(v: u8) -> (r: u8)
    requires
        v < 64,
    ensures
        r == b64_char(v),
{
    if v < 26 {
        65 + v
    } else if v < 52 {
        97 + (v - 26)
    } else if v < 62 {
        48 + (v - 52)
    } else if v == 62 {
        43
    } else {
        47
    }
}

/// Every six-bit piece the encoder extracts is below 64.
proof fn lemma_b64_parts(b0: u8, b1: u8, b2: u8)
    ensures
        b0 >> 2 < 64,
        (b0 & 3) << 4 < 64,
        (((b0 & 3) << 4) | (b1 >> 4)) < 64,
        (b1 & 15) << 2 < 64,
        (((b1 & 15) << 2) | (b2 >> 6)) < 64,
        b2 & 63 < 64,
{
    assert(b0 >> 2 < 64 && (b0 & 3) << 4 < 64 && (((b0 & 3) << 4) | (b1 >> 4)) < 64 && (b1 & 15)
        << 2 < 64 && (((b1 & 15) << 2) | (b2 >> 6)) < 64 && b2 & 63 < 64) by (bit_vector);
}

/// Append the base64 encoding of `src` to `out`.
fn push_b64(out: &mut Vec<u8>, src: &Vec<u8>)
    ensures
        final(out)@ == old(out)@ + b64_spec(src@),
{
    let ghost s = src@;
    let mut i: usize = 0;
    proof {
        assert(s.skip(0) =~= s);
    }
    while i < src.len()
        invariant
            i <= src@.len(),
            s == src@,
            i % 3 == 0 || i == src@.len(),
            out@ + b64_spec(s.skip(i as int)) == old(out)@ + b64_spec(s),
        decreases src@.len() - i,
    {
        let remaining = src.len() - i;
        proof {
            assert(s.skip(i as int)[0] == s[i as int]);
            if remaining >= 2 {
                assert(s.skip(i as int)[1] == s[i + 1]);
            }
            if remaining >= 3 {
                assert(s.skip(i as int)[2] == s[i + 2]);
                assert(s.skip(i as int).skip(3) =~= s.skip(i + 3));
            }
        }
        let b0 = src[i];
        if remaining == 1 {
            proof {
                lemma_b64_parts(b0, 0, 0);
            }
            out.push(b64_char_at(b0 >> 2));
            out.push(b64_char_at((b0 & 3) << 4));
            out.push(61u8);
            out.push(61u8);
            proof {
                assert(s.skip(i as int).len() == 1);
                assert(out@ + b64_spec(s.skip(src@.len() as int)) == old(out)@ + b64_spec(s));
            }
            i = src.len();
        } else if remaining == 2 {
            let b1 = src[i + 1];
            proof {
                lemma_b64_parts(b0, b1, 0);
            }
            out.push(b64_char_at(b0 >> 2));
            out.push(b64_char_at(((b0 & 3) << 4) | (b1 >> 4)));
            out.push(b64_char_at((b1 & 15) << 2));
            out.push(61u8);
            proof {
                assert(s.skip(i as int).len() == 2);
                assert(out@ + b64_spec(s.skip(src@.len() as int)) == old(out)@ + b64_spec(s));
            }
            i = src.len();
        } else {
            let b1 = src[i + 1];
            let b2 = src[i + 2];
            proof {
                lemma_b64_parts(b0, b1, b2);
            }
            out.push(b64_char_at(b0 >> 2));
            out.push(b64_char_at(((b0 & 3) << 4) | (b1 >> 4)));
            out.push(b64_char_at(((b1 & 15) << 2) | (b2 >> 6)));
            out.push(b64_char_at(b2 & 63));
            i = i + 3;
        }
    }
    assert(s.skip(s.len() as int) =~= Seq::<u8>::empty());
    assert(out@ =~= old(out)@ + b64_spec(s));
}

/// One step of the CRC-24 bit loop.
fn crc_bit_step(c: u32) -> (r: u32)
    ensures
        r == crc_bit(c),
{
    if c & 0x800000 != 0 {
        ((c << 1) ^ 0x1864CFB) & 0xFFFFFF
    } else {
        (c << 1) & 0xFFFFFF
    }
}

/// The CRC-24 of `src`.
fn crc24(src: &Vec<u8>) -> (r: u32)
    ensures
        r == crc24_spec(src@),
{
    let ghost s = src@;
    let mut c: u32 = 0xB704CE;
    let mut i: usize = 0;
    while i < src.len()
        invariant
            i <= src@.len(),
            s == src@,
            c == crc_absorb(0xB704CE, s.take(i as int)),
        decreases src@.len() - i,
    {
        proof {
            lemma_crc_absorb_snoc(0xB704CE, s.take(i as int), s[i as int]);
            assert(s.take(i as int).push(s[i as int]) =~= s.take(i + 1));
        }
        let b = src[i];
        let mut x: u32 = c ^ ((b as u32) << 16);
        x = crc_bit_step(x);
        x = crc_bit_step(x);
        x = crc_bit_step(x);
        x = crc_bit_step(x);
        x = crc_bit_step(x);
        x = crc_bit_step(x);
        x = crc_bit_step(x);
        x = crc_bit_step(x);
        c = x;
        i = i + 1;
    }
    assert(s.take(s.len() as int) =~= s);
    c
}

/// Append base64 text to `out`, 64 columns to a line.
fn push_wrapped(out: &mut Vec<u8>, src: &Vec<u8>)
    ensures
        final(out)@ == old(out)@ + wrap64(src@),
{
    let ghost s = src@;
    let mut i: usize = 0;
    proof {
        assert(s.skip(0) =~= s);
    }
    while i < src.len()
        invariant
            i <= src@.len(),
            s == src@,
            out@ + wrap64(s.skip(i as int)) == old(out)@ + wrap64(s),
        decreases src@.len() - i,
    {
        let remaining = src.len() - i;
        if remaining <= 64 {
            proof {
                assert(s.skip(i as int) =~= s.subrange(i as int, s.len() as int));
            }
            push_range(out, src, i, src.len());
            out.push(10u8);
            proof {
                assert(wrap64(s.skip(i as int)) =~= s.skip(i as int) + seq![10u8]);
                assert(out@ + wrap64(s.skip(s.len() as int)) == old(out)@ + wrap64(s));
            }
            i = src.len();
        } else {
            proof {
                assert(s.skip(i as int).take(64) =~= s.subrange(i as int, i + 64));
                assert(s.skip(i as int).skip(64) =~= s.skip(i + 64));
            }
            push_range(out, src, i, i + 64);
            out.push(10u8);
            i = i + 64;
        }
    }
    assert(s.skip(s.len() as int) =~= Seq::<u8>::empty());
    assert(out@ =~= old(out)@ + wrap64(s));
}

/// Append `src[from..to]` to `out`.
fn push_range(out: &mut Vec<u8>, src: &Vec<u8>, from: usize, to: usize)
    requires
        from <= to <= src@.len(),
    ensures
        final(out)@ == old(out)@ + src@.subrange(from as int, to as int),
{
    let mut j: usize = from;
    while j < to
        invariant
            from <= j <= to <= src@.len(),
            out@ == old(out)@ + src@.subrange(from as int, j as int),
        decreases to - j,
    {
        out.push(src[j]);
        assert(src@.subrange(from as int, j as int).push(src@[j as int]) =~= src@.subrange(
            from as int,
            j + 1,
        ));
        j = j + 1;
    }
}

/// The characters of an ASCII byte sequence, one per byte.
pub open spec fn chars_of(s: Seq<u8>) -> Seq<char> {
    s.map_values(|b: u8| b as char)
}

/// Relies on String::from_utf8: it succeeds exactly on valid UTF-8 input,
/// and the returned string then holds exactly the decoded characters.
#[verifier::external_body]
fn utf8_string(bytes: Vec<u8>) -> (r: Option<String>)
    ensures
        (r is Some) == valid_utf8(bytes@),
        r matches Some(s) ==> s@ == decode_utf8(bytes@),
{
    match String::from_utf8(bytes) {
        Ok(s) => Some(s),
        Err(_) => None,
    }
}

/// Append the armored rendering of `data` under `opts` to `out`.
pub fn write_armored(out: &mut Vec<u8>, data: &Vec<u8>, opts: &ArmorOptions)
    ensures
        final(out)@ == old(out)@ + armored_bytes(data@, opts@),
{
    push_begin_line(out);
    let ghost hs = opts@.headers;
    let mut i: usize = 0;
    assert(concat_map(hs.take(0), header_line_fn()) =~= Seq::<u8>::empty());
    while i < opts.headers.len()
        invariant
            i <= opts.headers@.len(),
            hs == opts@.headers,
            out@ == old(out)@ + begin_line() + concat_map(hs.take(i as int), header_line_fn()),
        decreases opts.headers@.len() - i,
    {
        proof {
            crate::wire::lemma_concat_map_snoc(hs.take(i as int), hs[i as int], header_line_fn());
            assert(hs.take(i as int).push(hs[i as int]) =~= hs.take(i + 1));
        }
        let h = &opts.headers[i];
        crate::enc::push_bytes(out, &h.key);
        out.push(58u8);
        out.push(32u8);
        crate::enc::push_bytes(out, &h.value);
        out.push(10u8);
        assert(out@ =~= old(out)@ + begin_line() + concat_map(hs.take(i + 1), header_line_fn()));
        i = i + 1;
    }
    assert(hs.take(hs.len() as int) =~= hs);
    out.push(10u8);
    let mut b64: Vec<u8> = Vec::new();
    push_b64(&mut b64, data);
    push_wrapped(out, &b64);
    if opts.include_checksum {
        let c = crc24(data);
        let mut crc_bytes: Vec<u8> = Vec::new();
        crc_bytes.push((c >> 16) as u8);
        crc_bytes.push((c >> 8) as u8);
        crc_bytes.push(c as u8);
        assert(crc_bytes@ =~= crc24_bytes(data@));
        out.push(61u8);
        push_b64(out, &crc_bytes);
        out.push(10u8);
    }
    push_end_line(out);
    assert(out@ =~= old(out)@ + armored_bytes(data@, opts@));
}

impl SignedPublicKey {
    /// Append the armored rendering of the certificate to `writer`.
    pub fn to_armored_writer(&self, writer: &mut Vec<u8>, opts: &ArmorOptions) -> (r: Result<
        (),
        Error,
    >)
        requires
            cert_wf(self@),
        ensures
            r is Ok,
            final(writer)@ == old(writer)@ + armored_bytes(cert_bytes(self@), opts@),
    {
        let data = self.to_bytes();
        write_armored(writer, &data, opts);
        Ok(())
    }

    /// The armored rendering of the certificate, as a fresh buffer.
    pub fn to_armored_bytes(&self, opts: &ArmorOptions) -> (r: Result<Vec<u8>, Error>)
        requires
            cert_wf(self@),
        ensures
            r is Ok,
            r matches Ok(v) ==> v@ == armored_bytes(cert_bytes(self@), opts@),
    {
        let mut out: Vec<u8> = Vec::new();
        match self.to_armored_writer(&mut out, opts) {
            Ok(()) => Ok(out),
            Err(e) => Err(e),
        }
    }

    /// The armored rendering as text: succeeds exactly when the armored
    /// bytes are valid UTF-8, and then holds exactly their decoded
    /// characters. The framing, base64 text and checksum trailer always
    /// are valid; only an ill-formed header field byte sequence fails.
    pub fn to_armored_string(&self, opts: &ArmorOptions) -> (r: Result<String, Error>)
        requires
            cert_wf(self@),
        ensures
            (r is Ok) == valid_utf8(armored_bytes(cert_bytes(self@), opts@)),
            r matches Ok(s) ==> s@ == decode_utf8(armored_bytes(cert_bytes(self@), opts@)),
            r matches Err(e) ==> e == Error::TextEncoding,
    {
        let bytes = match self.to_armored_bytes(opts) {
            Ok(v) => v,
            Err(e) => {
                return Err(e);
            },
        };
        match utf8_string(bytes) {
            Some(s) => Ok(s),
            None => Err(Error::TextEncoding),
        }
    }
}

} // verus!

verus! {

/// Every byte of the sequence is ASCII.
pub open spec fn ascii_seq(s: Seq<u8>) -> bool {
    forall|i: int| 0 <= i < s.len() ==> s[i] < 128
}

/// ASCII survives concatenation.
proof fn lemma_ascii_add(a: Seq<u8>, b: Seq<u8>)
    requires
        ascii_seq(a),
        ascii_seq(b),
    ensures
        ascii_seq(a + b),
{
    assert forall|i: int| 0 <= i < (a + b).len() implies (a + b)[i] < 128 by {
        if i < a.len() {
            assert((a + b)[i] == a[i]);
        } else {
            assert((a + b)[i] == b[i - a.len()]);
        }
    }
}

/// The base64 alphabet is ASCII.
proof fn lemma_b64_char_ascii(v: u8)
    ensures
        b64_char(v) < 128,
{
}

/// Base64 text is ASCII.
proof fn lemma_b64_ascii(s: Seq<u8>)
    ensures
        ascii_seq(b64_spec(s)),
    decreases s.len(),
{
    if s.len() == 0 {
    } else if s.len() == 1 {
        assert forall|i: int| 0 <= i < b64_spec(s).len() implies b64_spec(s)[i] < 128 by {
            lemma_b64_char_ascii(s[0] >> 2);
            lemma_b64_char_ascii((s[0] & 3) << 4);
        }
    } else if s.len() == 2 {
        assert forall|i: int| 0 <= i < b64_spec(s).len() implies b64_spec(s)[i] < 128 by {
            lemma_b64_char_ascii(s[0] >> 2);
            lemma_b64_char_ascii(((s[0] & 3) << 4) | (s[1] >> 4));
            lemma_b64_char_ascii((s[1] & 15) << 2);
        }
    } else {
        lemma_b64_ascii(s.skip(3));
        let head = seq![
            b64_char(s[0] >> 2),
            b64_char(((s[0] & 3) << 4) | (s[1] >> 4)),
            b64_char(((s[1] & 15) << 2) | (s[2] >> 6)),
            b64_char(s[2] & 63),
        ];
        assert(ascii_seq(head)) by {
            assert forall|i: int| 0 <= i < head.len() implies head[i] < 128 by {
                lemma_b64_char_ascii(s[0] >> 2);
                lemma_b64_char_ascii(((s[0] & 3) << 4) | (s[1] >> 4));
                lemma_b64_char_ascii(((s[1] & 15) << 2) | (s[2] >> 6));
                lemma_b64_char_ascii(s[2] & 63);
            }
        }
        lemma_ascii_add(head, b64_spec(s.skip(3)));
    }
}

/// Line-wrapped ASCII text stays ASCII.
proof fn lemma_wrap64_ascii(s: Seq<u8>)
    requires
        ascii_seq(s),
    ensures
        ascii_seq(wrap64(s)),
    decreases s.len(),
{
    if s.len() == 0 {
    } else if s.len() <= 64 {
        lemma_ascii_add(s, seq![10u8]);
    } else {
        assert(ascii_seq(s.take(64)));
        lemma_ascii_add(s.take(64), seq![10u8]);
        assert(ascii_seq(s.skip(64)));
        lemma_wrap64_ascii(s.skip(64));
        lemma_ascii_add(s.take(64) + seq![10u8], wrap64(s.skip(64)));
    }
}

/// Header fields with ASCII keys and values render to ASCII lines.
proof fn lemma_headers_ascii(hs: Seq<ArmorHeaderV>)
    requires
        forall|i: int|
            0 <= i < hs.len() ==> ascii_seq(#[trigger] hs[i].key) && ascii_seq(hs[i].value),
    ensures
        ascii_seq(concat_map(hs, header_line_fn())),
    decreases hs.len(),
{
    if hs.len() > 0 {
        let h = hs[0];
        lemma_ascii_add(h.key, seq![58u8, 32u8]);
        lemma_ascii_add(h.key + seq![58u8, 32u8], h.value);
        lemma_ascii_add(h.key + seq![58u8, 32u8] + h.value, seq![10u8]);
        assert(ascii_seq(header_line_fn()(h)));
        assert(forall|i: int|
            0 <= i < hs.skip(1).len() ==> ascii_seq(#[trigger] hs.skip(1)[i].key) && ascii_seq(
                hs.skip(1)[i].value,
            ));
        lemma_headers_ascii(hs.skip(1));
        lemma_ascii_add(header_line_fn()(h), concat_map(hs.skip(1), header_line_fn()));
    }
}

/// ASCII bytes are valid UTF-8, decoding to one character per byte.
pub proof fn lemma_ascii_valid_utf8(s: Seq<u8>)
    requires
        ascii_seq(s),
    ensures
        valid_utf8(s),
        decode_utf8(s) == chars_of(s),
    decreases s.len(),
{
    if s.len() > 0 {
        let b = s[0];
        assert(b < 128);
        assert(vstd::utf8::is_leading_byte_width_1(b));
        assert(b & 0x7F == b) by (bit_vector)
            requires
                b < 128,
        ;
        assert(vstd::utf8::decode_first_codepoint(s) == b as u32);
        assert(vstd::utf8::length_of_first_codepoint(s) == 1);
        assert(vstd::utf8::valid_first_scalar(s));
        assert(vstd::utf8::pop_first_scalar(s) =~= s.skip(1));
        assert(ascii_seq(s.skip(1)));
        lemma_ascii_valid_utf8(s.skip(1));
        assert((b as u32) as char == b as char);
        assert(decode_utf8(s) =~= chars_of(s));
    } else {
        assert(decode_utf8(s) =~= chars_of(s));
    }
}

/// The whole armored rendering is ASCII — and so valid UTF-8 — whenever
/// every header byte is: the framing lines, the base64 text and the
/// checksum trailer always are. `to_armored_string` therefore succeeds on
/// every such option set.
pub proof fn lemma_armored_ascii(data: Seq<u8>, opts: ArmorOptionsV)
    requires
        forall|i: int|
            0 <= i < opts.headers.len() ==> ascii_seq(#[trigger] opts.headers[i].key) && ascii_seq(
                opts.headers[i].value,
            ),
    ensures
        ascii_seq(armored_bytes(data, opts)),
        valid_utf8(armored_bytes(data, opts)),
{
    lemma_armored_ascii_bytes(data, opts);
    lemma_ascii_valid_utf8(armored_bytes(data, opts));
}

/// The whole armored rendering is ASCII whenever every header byte is.
proof fn lemma_armored_ascii_bytes(data: Seq<u8>, opts: ArmorOptionsV)
    requires
        forall|i: int|
            0 <= i < opts.headers.len() ==> ascii_seq(#[trigger] opts.headers[i].key) && ascii_seq(
                opts.headers[i].value,
            ),
    ensures
        ascii_seq(armored_bytes(data, opts)),
{
    assert(ascii_seq(begin_line()));
    assert(ascii_seq(end_line()));
    lemma_headers_ascii(opts.headers);
    lemma_b64_ascii(data);
    lemma_wrap64_ascii(b64_spec(data));
    lemma_b64_ascii(crc24_bytes(data));
    assert(ascii_seq(checksum_part(data, opts.include_checksum))) by {
        if opts.include_checksum {
            lemma_ascii_add(seq![61u8], b64_spec(crc24_bytes(data)));
            lemma_ascii_add(seq![61u8] + b64_spec(crc24_bytes(data)), seq![10u8]);
        }
    }
    lemma_ascii_add(begin_line(), concat_map(opts.headers, header_line_fn()));
    lemma_ascii_add(begin_line() + concat_map(opts.headers, header_line_fn()), seq![10u8]);
    lemma_ascii_add(
        begin_line() + concat_map(opts.headers, header_line_fn()) + seq![10u8],
        wrap64(b64_spec(data)),
    );
    lemma_ascii_add(
        begin_line() + concat_map(opts.headers, header_line_fn()) + seq![10u8] + wrap64(
            b64_spec(data),
        ),
        checksum_part(data, opts.include_checksum),
    );
    lemma_ascii_add(
        begin_line() + concat_map(opts.headers, header_line_fn()) + seq![10u8] + wrap64(
            b64_spec(data),
        ) + checksum_part(data, opts.include_checksum),
        end_line(),
    );
}

} // verus!
