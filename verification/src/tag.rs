//! The signature primitive of the certificate model.
//!
//! The public-key mathematics behind real OpenPGP signatures lives outside
//! this library. In its place, signature validity is defined by a keyed
//! 64-bit checksum: a signature is valid for a signer exactly when its
//! signature bytes equal `key_tag` of the signer's key material over the
//! signed payload. Validity is thus a total, deterministic function of key
//! and payload, so every binding rule of the verifier can be stated and
//! proved exactly, and a single flipped bit anywhere in the signed payload
//! or in the signature bytes makes verification fail.

use vstd::prelude::*;

verus! {

/// Initial state of the checksum.
pub open spec fn tag_init() -> u64 {
    0xcbf29ce484222325u64
}

/// Absorb one byte into the checksum state.
pub open spec fn tag_mix(h: u64, b: u8) -> u64 {
    (h ^ (b as u64)).wrapping_mul(0x100000001b3u64)
}

/// Absorb a byte sequence into the checksum state, front to back.
pub open spec fn tag_absorb(h: u64, s: Seq<u8>) -> u64
    decreases s.len(),
{
    if s.len() == 0 {
        h
    } else {
        tag_absorb(tag_mix(h, s[0]), s.skip(1))
    }
}

/// Absorbing `s + [b]` is absorbing `s`, then mixing in `b`.
pub proof fn lemma_tag_absorb_snoc(h: u64, s: Seq<u8>, b: u8)
    ensures
        tag_absorb(h, s.push(b)) == tag_mix(tag_absorb(h, s), b),
    decreases s.len(),
{
    if s.len() == 0 {
        assert(s.push(b)[0] == b);
        assert(s.push(b).skip(1) =~= Seq::<u8>::empty());
        assert(tag_absorb(h, s.push(b)) == tag_absorb(tag_mix(h, b), Seq::<u8>::empty()));
        assert(tag_absorb(tag_mix(h, b), Seq::<u8>::empty()) == tag_mix(h, b));
        assert(tag_absorb(h, s) == h);
    } else {
        assert(s.push(b)[0] == s[0]);
        assert(s.push(b).skip(1) =~= s.skip(1).push(b));
        lemma_tag_absorb_snoc(tag_mix(h, s[0]), s.skip(1), b);
        assert(tag_absorb(h, s.push(b)) == tag_absorb(tag_mix(h, s[0]), s.skip(1).push(b)));
        assert(tag_absorb(h, s) == tag_absorb(tag_mix(h, s[0]), s.skip(1)));
    }
}

/// The checksum state after absorbing the key material and then the payload,
/// with the key's length in between so that no two (key, payload) splits of
/// the same byte stream collide.
pub open spec fn tag_state(key: Seq<u8>, payload: Seq<u8>) -> u64
    recommends
        key.len() <= u32::MAX,
{
    tag_absorb(
        tag_absorb(
            tag_absorb(tag_init(), key),
            crate::enc::be32_spec(key.len() as u32),
        ),
        payload,
    )
}

/// The eight-byte tag of a payload under a key: the big-endian bytes of the
/// final checksum state.
pub open spec fn key_tag(key: Seq<u8>, payload: Seq<u8>) -> Seq<u8>
    recommends
        key.len() <= u32::MAX,
{
    tag_bytes(tag_state(key, payload))
}

/// The big-endian eight-byte rendering of a checksum state.
pub open spec fn tag_bytes(h: u64) -> Seq<u8> {
    seq![
        (h >> 56) as u8,
        (h >> 48) as u8,
        (h >> 40) as u8,
        (h >> 32) as u8,
        (h >> 24) as u8,
        (h >> 16) as u8,
        (h >> 8) as u8,
        h as u8,
    ]
}

/// Absorb `s` into the running state `h`.
fn absorb(h: u64, s: &Vec<u8>) -> (r: u64)
    ensures
        r == tag_absorb(h, s@),
{
    let mut acc: u64 = h;
    let mut i: usize = 0;
    while i < s.len()
        invariant
            i <= s.len(),
            acc == tag_absorb(h, s@.take(i as int)),
        decreases s.len() - i,
    {
        proof {
            lemma_tag_absorb_snoc(h, s@.take(i as int), s@[i as int]);
            assert(s@.take(i as int).push(s@[i as int]) =~= s@.take(i + 1));
        }
        acc = (acc ^ (s[i] as u64)).wrapping_mul(0x100000001b3u64);
        i = i + 1;
    }
    assert(s@.take(s@.len() as int) =~= s@);
    acc
}

/// Compute the eight-byte tag of `payload` under `key`.
pub fn compute_tag(key: &Vec<u8>, payload: &Vec<u8>) -> (r: Vec<u8>)
    requires
        key@.len() <= u32::MAX,
    ensures
        r@ == key_tag(key@, payload@),
{
    let h0 = absorb(0xcbf29ce484222325u64, key);
    let mut len_bytes: Vec<u8> = Vec::new();
    crate::enc::push_be32(&mut len_bytes, key.len() as u32);
    let h1 = absorb(h0, &len_bytes);
    let h = absorb(h1, payload);
    let mut out: Vec<u8> = Vec::new();
    out.push((h >> 56) as u8);
    out.push((h >> 48) as u8);
    out.push((h >> 40) as u8);
    out.push((h >> 32) as u8);
    out.push((h >> 24) as u8);
    out.push((h >> 16) as u8);
    out.push((h >> 8) as u8);
    out.push(h as u8);
    assert(out@ =~= tag_bytes(h));
    out
}

/// Whether `sig` is the tag of `payload` under `key`.
pub fn check_tag(key: &Vec<u8>, payload: &Vec<u8>, sig: &Vec<u8>) -> (r: bool)
    requires
        key@.len() <= u32::MAX,
    ensures
        r == (sig@ == key_tag(key@, payload@)),
{
    let expected = compute_tag(key, payload);
    eq_bytes(sig, &expected)
}

/// Whether two byte vectors hold the same bytes.
pub fn eq_bytes(a: &Vec<u8>, b: &Vec<u8>) -> (r: bool)
    ensures
        r == (a@ == b@),
{
    if a.len() != b.len() {
        assert(a@ != b@) by {
            assert(a@.len() != b@.len());
        }
        return false;
    }
    let mut i: usize = 0;
    while i < a.len()
        invariant
            i <= a.len(),
            a@.len() == b@.len(),
            forall|j: int| 0 <= j < i ==> a@[j] == b@[j],
        decreases a.len() - i,
    {
        if a[i] != b[i] {
            return false;
        }
        i = i + 1;
    }
    assert(a@ =~= b@);
    true
}

} // verus!
