//! Concatenated encodings of lists: one spec function and its lemmas,
//! shared by every level of the packet serializer.

use vstd::prelude::*;

verus! {

/// The concatenation of `f` over the elements of `s`, front to back.
pub open spec fn concat_map<A>(s: Seq<A>, f: spec_fn(A) -> Seq<u8>) -> Seq<u8>
    decreases s.len(),
{
    if s.len() == 0 {
        Seq::<u8>::empty()
    } else {
        f(s[0]) + concat_map(s.skip(1), f)
    }
}

/// Appending an element appends its encoding.
pub proof fn lemma_concat_map_snoc<A>(s: Seq<A>, x: A, f: spec_fn(A) -> Seq<u8>)
    ensures
        concat_map(s.push(x), f) == concat_map(s, f) + f(x),
    decreases s.len(),
{
    if s.len() == 0 {
        assert(s.push(x)[0] == x);
        assert(s.push(x).skip(1) =~= Seq::<A>::empty());
        assert(concat_map(s.push(x), f) == f(x) + concat_map(Seq::<A>::empty(), f));
        assert(concat_map(Seq::<A>::empty(), f) == Seq::<u8>::empty());
        assert(concat_map(s, f) == Seq::<u8>::empty());
        assert(concat_map(s.push(x), f) =~= concat_map(s, f) + f(x));
    } else {
        assert(s.push(x)[0] == s[0]);
        assert(s.push(x).skip(1) =~= s.skip(1).push(x));
        lemma_concat_map_snoc(s.skip(1), x, f);
        assert(concat_map(s.push(x), f) =~= concat_map(s, f) + f(x));
    }
}

/// The encoding splits at any index.
pub proof fn lemma_concat_map_split<A>(s: Seq<A>, j: int, f: spec_fn(A) -> Seq<u8>)
    requires
        0 <= j <= s.len(),
    ensures
        concat_map(s, f) == concat_map(s.take(j), f) + concat_map(s.skip(j), f),
    decreases j,
{
    if j == 0 {
        assert(s.take(0) =~= Seq::<A>::empty());
        assert(s.skip(0) =~= s);
        assert(concat_map(s, f) =~= concat_map(s.take(0), f) + concat_map(s.skip(0), f));
    } else {
        lemma_concat_map_split(s.skip(1), j - 1, f);
        assert(s.take(j)[0] == s[0]);
        assert(s.take(j).skip(1) =~= s.skip(1).take(j - 1));
        assert(s.skip(j) =~= s.skip(1).skip(j - 1));
        assert(concat_map(s, f) =~= concat_map(s.take(j), f) + concat_map(s.skip(j), f));
    }
}

/// The wire form of a packet with new-format framing: the tag octet with
/// its two top bits set, the body length in the smallest sufficient width,
/// then the body.
pub open spec fn packet_bytes(tag: u8, body: Seq<u8>) -> Seq<u8>
    recommends
        body.len() <= u32::MAX,
{
    seq![(0xC0u8 | tag) as u8] + crate::enc::len_enc(body.len()) + body
}

/// Append the wire form of a packet to `out`.
pub fn push_packet(out: &mut Vec<u8>, tag: u8, body: &Vec<u8>)
    requires
        body@.len() <= u32::MAX,
    ensures
        final(out)@ == old(out)@ + packet_bytes(tag, body@),
{
    out.push(0xC0u8 | tag);
    crate::enc::push_len_enc(out, body.len() as u32);
    crate::enc::push_bytes(out, body);
    assert(out@ =~= old(out)@ + packet_bytes(tag, body@));
}

/// A prefix never encodes to more bytes than the whole.
pub proof fn lemma_concat_map_prefix_len<A>(s: Seq<A>, j: int, f: spec_fn(A) -> Seq<u8>)
    requires
        0 <= j <= s.len(),
    ensures
        concat_map(s.take(j), f).len() <= concat_map(s, f).len(),
{
    lemma_concat_map_split(s, j, f);
}

} // verus!
