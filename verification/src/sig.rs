//! Binding signatures: their subpackets, wire body, and the validity
//! predicates of the binding protocol — forward subkey bindings by the
//! primary key, reverse bindings by signing-capable subkeys, and identity
//! certifications.

use vstd::prelude::*;

use crate::enc::{be16_spec, be32_spec, copy_bytes, len_enc, push_be16, push_be32, push_bytes,
    push_len_enc};
use crate::key::{key_body, key_wf, KeyMaterial, KeyMaterialV};
use crate::tag::{check_tag, key_tag};
use crate::types::{sig_type_canonical, sig_type_code_spec, Error, SignatureType};
use crate::wire::{concat_map, lemma_concat_map_prefix_len, lemma_concat_map_snoc};

verus! {

/// The ghost image of `EmbeddedSig`.
pub ghost struct EmbeddedSigV {
    pub typ: SignatureType,
    pub created_at: u32,
    pub sig_bytes: Seq<u8>,
}

/// A signature carried inside another signature's subpacket area: the
/// reverse binding a signing-capable subkey makes over the primary key.
/// It carries no subpacket area of its own.
#[derive(Debug, Clone, PartialEq, Eq)]
pub struct EmbeddedSig {
    pub typ: SignatureType,
    pub created_at: u32,
    pub sig_bytes: Vec<u8>,
}

impl View for EmbeddedSig {
    type V = EmbeddedSigV;

    open spec fn view(&self) -> EmbeddedSigV {
        EmbeddedSigV { typ: self.typ, created_at: self.created_at, sig_bytes: self.sig_bytes@ }
    }
}

/// The ghost image of `Subpacket`.
pub ghost enum SubpacketV {
    KeyFlags(u8),
    KeyExpiration(u32),
    EmbeddedSignature(EmbeddedSigV),
}

/// A signature subpacket, as far as this library reads them: key flags,
/// key expiration time in seconds after key creation, or an embedded
/// signature.
#[derive(Debug, Clone, PartialEq, Eq)]
pub enum Subpacket {
    KeyFlags(u8),
    KeyExpiration(u32),
    EmbeddedSignature(EmbeddedSig),
}

impl View for Subpacket {
    type V = SubpacketV;

    open spec fn view(&self) -> SubpacketV {
        match self {
            Subpacket::KeyFlags(f) => SubpacketV::KeyFlags(*f),
            Subpacket::KeyExpiration(d) => SubpacketV::KeyExpiration(*d),
            Subpacket::EmbeddedSignature(e) => SubpacketV::EmbeddedSignature(e@),
        }
    }
}

/// The ghost images of a list of subpackets.
pub open spec fn sp_views(s: Seq<Subpacket>) -> Seq<SubpacketV> {
    s.map_values(|p: Subpacket| p@)
}

/// A well-formed subpacket: an embedded signature fits its framing and has
/// a canonical type.
pub open spec fn subpacket_wf(p: SubpacketV) -> bool {
    match p {
        SubpacketV::EmbeddedSignature(e) => e.sig_bytes.len() <= 0xFFFF && sig_type_canonical(
            e.typ,
        ),
        _ => true,
    }
}

/// The payload of a subpacket: its type octet followed by its data.
pub open spec fn subpacket_payload(p: SubpacketV) -> Seq<u8> {
    match p {
        SubpacketV::KeyFlags(f) => seq![27u8, f],
        SubpacketV::KeyExpiration(d) => seq![9u8] + be32_spec(d),
        SubpacketV::EmbeddedSignature(e) => seq![32u8, sig_type_code_spec(e.typ)] + be32_spec(
            e.created_at,
        ) + e.sig_bytes,
    }
}

/// The wire form of a subpacket: the length of the payload in the smallest
/// sufficient width, then the payload.
pub open spec fn subpacket_bytes(p: SubpacketV) -> Seq<u8> {
    len_enc(subpacket_payload(p).len()) + subpacket_payload(p)
}

/// `subpacket_bytes` as a value, for the list-level concatenation.
pub open spec fn subpacket_bytes_fn() -> spec_fn(SubpacketV) -> Seq<u8> {
    |p: SubpacketV| subpacket_bytes(p)
}

/// The wire form of a subpacket area.
pub open spec fn subpackets_bytes(s: Seq<SubpacketV>) -> Seq<u8> {
    concat_map(s, subpacket_bytes_fn())
}

/// The first key-flags octet in a subpacket list, front to back.
pub open spec fn first_key_flags(s: Seq<SubpacketV>) -> Option<u8>
    decreases s.len(),
{
    if s.len() == 0 {
        None
    } else {
        match s[0] {
            SubpacketV::KeyFlags(f) => Some(f),
            _ => first_key_flags(s.skip(1)),
        }
    }
}

/// The first embedded signature in a subpacket list, front to back.
pub open spec fn first_embedded(s: Seq<SubpacketV>) -> Option<EmbeddedSigV>
    decreases s.len(),
{
    if s.len() == 0 {
        None
    } else {
        match s[0] {
            SubpacketV::EmbeddedSignature(e) => Some(e),
            _ => first_embedded(s.skip(1)),
        }
    }
}

/// The ghost image of `Signature`.
pub ghost struct SignatureV {
    pub typ: SignatureType,
    pub created_at: u32,
    pub hashed: Seq<SubpacketV>,
    pub unhashed: Seq<SubpacketV>,
    pub sig_bytes: Seq<u8>,
}

/// A binding signature: its type, creation time, hashed and unhashed
/// subpacket areas, and the signature bytes themselves.
#[derive(Debug, Clone, PartialEq, Eq)]
pub struct Signature {
    pub typ: SignatureType,
    pub created_at: u32,
    pub hashed: Vec<Subpacket>,
    pub unhashed: Vec<Subpacket>,
    pub sig_bytes: Vec<u8>,
}

impl View for Signature {
    type V = SignatureV;

    open spec fn view(&self) -> SignatureV {
        SignatureV {
            typ: self.typ,
            created_at: self.created_at,
            hashed: sp_views(self.hashed@),
            unhashed: sp_views(self.unhashed@),
            sig_bytes: self.sig_bytes@,
        }
    }
}

/// A well-formed signature: canonical type, well-formed subpackets, and
/// every area within its framing bounds.
pub open spec fn sig_wf(s: SignatureV) -> bool {
    &&& sig_type_canonical(s.typ)
    &&& forall|i: int| 0 <= i < s.hashed.len() ==> subpacket_wf(#[trigger] s.hashed[i])
    &&& forall|i: int| 0 <= i < s.unhashed.len() ==> subpacket_wf(#[trigger] s.unhashed[i])
    &&& subpackets_bytes(s.hashed).len() <= 0xFFFF
    &&& subpackets_bytes(s.unhashed).len() <= 0xFFFF
    &&& s.sig_bytes.len() <= 0xFFFF
}

/// The key-flags octet a signature asserts for its subject: the first
/// key-flags subpacket of the hashed area, else of the unhashed area, else
/// no capability at all.
pub open spec fn sig_key_flags(s: SignatureV) -> u8 {
    match first_key_flags(s.hashed) {
        Some(f) => f,
        None => match first_key_flags(s.unhashed) {
            Some(f) => f,
            None => 0,
        },
    }
}

/// The embedded signature a signature carries: the first one of the hashed
/// area, else of the unhashed area.
pub open spec fn sig_embedded(s: SignatureV) -> Option<EmbeddedSigV> {
    match first_embedded(s.hashed) {
        Some(e) => Some(e),
        None => first_embedded(s.unhashed),
    }
}

/// The part of a signature that its maker signs over: type, creation time,
/// and the hashed subpacket area.
pub open spec fn sig_trailer(s: SignatureV) -> Seq<u8> {
    seq![sig_type_code_spec(s.typ)] + be32_spec(s.created_at) + subpackets_bytes(s.hashed)
}

/// The wire body of a signature packet: type, creation time, then the
/// hashed area, the unhashed area and the signature bytes, each preceded by
/// its two-octet big-endian length.
pub open spec fn sig_body(s: SignatureV) -> Seq<u8>
    recommends
        sig_wf(s),
{
    seq![sig_type_code_spec(s.typ)] + be32_spec(s.created_at) + be16_spec(
        subpackets_bytes(s.hashed).len() as u16,
    ) + subpackets_bytes(s.hashed) + be16_spec(subpackets_bytes(s.unhashed).len() as u16)
        + subpackets_bytes(s.unhashed) + be16_spec(s.sig_bytes.len() as u16) + s.sig_bytes
}

/// The payload a forward subkey binding signs: the primary key's body, the
/// subkey's body, and the signature's own signed part.
pub open spec fn forward_payload(primary: KeyMaterialV, sub: KeyMaterialV, s: SignatureV) -> Seq<
    u8,
> {
    key_body(primary) + key_body(sub) + sig_trailer(s)
}

/// A valid forward subkey binding: made by the primary key over
/// (primary, subkey).
pub open spec fn forward_valid(primary: KeyMaterialV, sub: KeyMaterialV, s: SignatureV) -> bool {
    s.sig_bytes == key_tag(primary.key_bytes, forward_payload(primary, sub, s))
}

/// The payload a reverse binding signs: the primary key's body, the
/// subkey's body, and the embedded signature's type and creation time.
pub open spec fn reverse_payload(primary: KeyMaterialV, sub: KeyMaterialV, e: EmbeddedSigV) -> Seq<
    u8,
> {
    key_body(primary) + key_body(sub) + seq![sig_type_code_spec(e.typ)] + be32_spec(e.created_at)
}

/// A valid reverse binding: a primary-key-binding signature made by the
/// subkey over (subkey, primary) — the subkey holder's consent to sign on
/// the primary's behalf.
pub open spec fn reverse_valid(primary: KeyMaterialV, sub: KeyMaterialV, e: EmbeddedSigV) -> bool {
    &&& e.typ == SignatureType::PrimaryKeyBinding
    &&& e.sig_bytes == key_tag(sub.key_bytes, reverse_payload(primary, sub, e))
}

/// The payload an identity self-signature signs: the primary key's body,
/// the user id, and the signature's own signed part.
pub open spec fn cert_payload(primary: KeyMaterialV, id: Seq<u8>, s: SignatureV) -> Seq<u8> {
    key_body(primary) + id + sig_trailer(s)
}

/// A valid identity self-signature: made by the primary key over its own
/// key material and the user id.
pub open spec fn cert_sig_valid(primary: KeyMaterialV, id: Seq<u8>, s: SignatureV) -> bool {
    s.sig_bytes == key_tag(primary.key_bytes, cert_payload(primary, id, s))
}

impl Subpacket {
    /// A fresh deep copy.
    pub fn duplicate(&self) -> (r: Subpacket)
        ensures
            r@ == self@,
    {
        match self {
            Subpacket::KeyFlags(f) => Subpacket::KeyFlags(*f),
            Subpacket::KeyExpiration(d) => Subpacket::KeyExpiration(*d),
            Subpacket::EmbeddedSignature(e) => Subpacket::EmbeddedSignature(
                EmbeddedSig {
                    typ: e.typ,
                    created_at: e.created_at,
                    sig_bytes: copy_bytes(&e.sig_bytes),
                },
            ),
        }
    }

    /// The byte count of this subpacket's payload.
    pub fn payload_len(&self) -> (r: usize)
        requires
            subpacket_wf(self@),
        ensures
            r == subpacket_payload(self@).len(),
    {
        match self {
            Subpacket::KeyFlags(_) => 2,
            Subpacket::KeyExpiration(_) => 5,
            Subpacket::EmbeddedSignature(e) => 6 + e.sig_bytes.len(),
        }
    }

    /// Append this subpacket's payload to `out`.
    pub fn push_payload(&self, out: &mut Vec<u8>)
        ensures
            final(out)@ == old(out)@ + subpacket_payload(self@),
    {
        match self {
            Subpacket::KeyFlags(f) => {
                out.push(27u8);
                out.push(*f);
            },
            Subpacket::KeyExpiration(d) => {
                out.push(9u8);
                push_be32(out, *d);
            },
            Subpacket::EmbeddedSignature(e) => {
                out.push(32u8);
                out.push(e.typ.code());
                push_be32(out, e.created_at);
                push_bytes(out, &e.sig_bytes);
            },
        }
        assert(out@ =~= old(out)@ + subpacket_payload(self@));
    }

    /// Append this subpacket's wire form to `out`.
    pub fn push_wire(&self, out: &mut Vec<u8>)
        requires
            subpacket_wf(self@),
        ensures
            final(out)@ == old(out)@ + subpacket_bytes(self@),
    {
        let n = self.payload_len();
        push_len_enc(out, n as u32);
        self.push_payload(out);
        assert(out@ =~= old(out)@ + subpacket_bytes(self@));
    }
}

/// Append the wire form of a subpacket area to `out`.
pub fn push_subpackets(out: &mut Vec<u8>, sps: &Vec<Subpacket>)
    requires
        forall|i: int| 0 <= i < sps@.len() ==> subpacket_wf(#[trigger] sp_views(sps@)[i]),
    ensures
        final(out)@ == old(out)@ + subpackets_bytes(sp_views(sps@)),
{
    let ghost views = sp_views(sps@);
    let mut i: usize = 0;
    while i < sps.len()
        invariant
            i <= sps@.len(),
            views == sp_views(sps@),
            forall|j: int| 0 <= j < sps@.len() ==> subpacket_wf(#[trigger] views[j]),
            out@ == old(out)@ + subpackets_bytes(views.take(i as int)),
        decreases sps@.len() - i,
    {
        proof {
            lemma_concat_map_snoc(views.take(i as int), views[i as int], subpacket_bytes_fn());
            assert(views.take(i as int).push(views[i as int]) =~= views.take(i + 1));
        }
        sps[i].push_wire(out);
        i = i + 1;
    }
    assert(views.take(views.len() as int) =~= views);
}

/// The byte count of a subpacket area's wire form.
pub fn subpackets_len(sps: &Vec<Subpacket>) -> (r: usize)
    requires
        forall|i: int| 0 <= i < sps@.len() ==> subpacket_wf(#[trigger] sp_views(sps@)[i]),
        subpackets_bytes(sp_views(sps@)).len() <= 0xFFFF,
    ensures
        r == subpackets_bytes(sp_views(sps@)).len(),
{
    let ghost views = sp_views(sps@);
    let mut sum: usize = 0;
    let mut i: usize = 0;
    while i < sps.len()
        invariant
            i <= sps@.len(),
            views == sp_views(sps@),
            forall|j: int| 0 <= j < sps@.len() ==> subpacket_wf(#[trigger] views[j]),
            subpackets_bytes(views).len() <= 0xFFFF,
            sum == subpackets_bytes(views.take(i as int)).len(),
        decreases sps@.len() - i,
    {
        proof {
            lemma_concat_map_snoc(views.take(i as int), views[i as int], subpacket_bytes_fn());
            assert(views.take(i as int).push(views[i as int]) =~= views.take(i + 1));
            lemma_concat_map_prefix_len(views, i + 1, subpacket_bytes_fn());
        }
        let n = sps[i].payload_len();
        let w = crate::enc::fixed_encoding_len(n as u32);
        sum = sum + w + n;
        i = i + 1;
    }
    assert(views.take(views.len() as int) =~= views);
    sum
}

impl Signature {
    /// The signature's type.
    pub fn typ(&self) -> (r: SignatureType)
        ensures
            r == self@.typ,
    {
        self.typ
    }

    /// The signature's creation time, in seconds since the epoch.
    pub fn created_at(&self) -> (r: u32)
        ensures
            r == self@.created_at,
    {
        self.created_at
    }

    /// The key-flags octet this signature asserts for its subject.
    pub fn key_flags(&self) -> (r: u8)
        ensures
            r == sig_key_flags(self@),
    {
        match scan_key_flags(&self.hashed) {
            Some(f) => f,
            None => match scan_key_flags(&self.unhashed) {
                Some(f) => f,
                None => 0,
            },
        }
    }

    /// The embedded signature this signature carries, if any.
    pub fn embedded_signature(&self) -> (r: Option<&EmbeddedSig>)
        ensures
            sig_embedded(self@) == (match r {
                Some(e) => Some(e@),
                None => None::<EmbeddedSigV>,
            }),
    {
        match scan_embedded(&self.hashed) {
            Some(e) => Some(e),
            None => scan_embedded(&self.unhashed),
        }
    }

    /// The embedded signature of the hashed area alone, if any.
    pub fn hashed_embedded(&self) -> (r: Option<&EmbeddedSig>)
        ensures
            first_embedded(self@.hashed) == (match r {
                Some(e) => Some(e@),
                None => None::<EmbeddedSigV>,
            }),
    {
        scan_embedded(&self.hashed)
    }

    /// A fresh deep copy.
    pub fn duplicate(&self) -> (r: Signature)
        ensures
            r@ == self@,
    {
        let r = Signature {
            typ: self.typ,
            created_at: self.created_at,
            hashed: copy_subpackets(&self.hashed),
            unhashed: copy_subpackets(&self.unhashed),
            sig_bytes: copy_bytes(&self.sig_bytes),
        };
        r
    }

    /// Append the signed part of this signature to `out`.
    pub fn push_trailer(&self, out: &mut Vec<u8>)
        requires
            forall|i: int| 0 <= i < self@.hashed.len() ==> subpacket_wf(#[trigger] self@.hashed[i]),
        ensures
            final(out)@ == old(out)@ + sig_trailer(self@),
    {
        out.push(self.typ.code());
        push_be32(out, self.created_at);
        push_subpackets(out, &self.hashed);
        assert(out@ =~= old(out)@ + sig_trailer(self@));
    }

    /// Append the wire body of this signature packet to `out`.
    pub fn push_body(&self, out: &mut Vec<u8>)
        requires
            sig_wf(self@),
        ensures
            final(out)@ == old(out)@ + sig_body(self@),
    {
        out.push(self.typ.code());
        push_be32(out, self.created_at);
        let hlen = subpackets_len(&self.hashed);
        push_be16(out, hlen as u16);
        push_subpackets(out, &self.hashed);
        let ulen = subpackets_len(&self.unhashed);
        push_be16(out, ulen as u16);
        push_subpackets(out, &self.unhashed);
        push_be16(out, self.sig_bytes.len() as u16);
        push_bytes(out, &self.sig_bytes);
        assert(out@ =~= old(out)@ + sig_body(self@));
    }

    /// The byte count of the wire body.
    pub fn body_len(&self) -> (r: usize)
        requires
            sig_wf(self@),
        ensures
            r == sig_body(self@).len(),
    {
        let hlen = subpackets_len(&self.hashed);
        let ulen = subpackets_len(&self.unhashed);
        11 + hlen + ulen + self.sig_bytes.len()
    }

    /// Check this signature as a forward subkey binding: made by the
    /// primary key over (primary, subkey).
    pub fn verify_subkey_binding(&self, primary: &KeyMaterial, sub: &KeyMaterial) -> (r: Result<
        (),
        Error,
    >)
        requires
            key_wf(primary@),
            forall|i: int| 0 <= i < self@.hashed.len() ==> subpacket_wf(#[trigger] self@.hashed[i]),
        ensures
            (r is Ok) == forward_valid(primary@, sub@, self@),
            r is Err ==> r == Err::<(), Error>(Error::SubkeyBindingSignature),
    {
        let mut payload: Vec<u8> = Vec::new();
        primary.push_body(&mut payload);
        sub.push_body(&mut payload);
        self.push_trailer(&mut payload);
        assert(payload@ =~= forward_payload(primary@, sub@, self@));
        if check_tag(&primary.key_bytes, &payload, &self.sig_bytes) {
            Ok(())
        } else {
            Err(Error::SubkeyBindingSignature)
        }
    }

    /// Check this signature as an identity self-signature over a user id.
    pub fn verify_certification(&self, primary: &KeyMaterial, id: &Vec<u8>) -> (r: Result<
        (),
        Error,
    >)
        requires
            key_wf(primary@),
            forall|i: int| 0 <= i < self@.hashed.len() ==> subpacket_wf(#[trigger] self@.hashed[i]),
        ensures
            (r is Ok) == cert_sig_valid(primary@, id@, self@),
            r is Err ==> r == Err::<(), Error>(Error::IdentitySignature),
    {
        let mut payload: Vec<u8> = Vec::new();
        primary.push_body(&mut payload);
        push_bytes(&mut payload, id);
        self.push_trailer(&mut payload);
        assert(payload@ =~= cert_payload(primary@, id@, self@));
        if check_tag(&primary.key_bytes, &payload, &self.sig_bytes) {
            Ok(())
        } else {
            Err(Error::IdentitySignature)
        }
    }
}

impl EmbeddedSig {
    /// Check this embedded signature as a reverse binding: a
    /// primary-key-binding signature made by the subkey over
    /// (subkey, primary).
    pub fn verify_primary_key_binding(&self, sub: &KeyMaterial, primary: &KeyMaterial) -> (r:
        Result<(), Error>)
        requires
            key_wf(sub@),
        ensures
            (r is Ok) == reverse_valid(primary@, sub@, self@),
            r is Err ==> r == Err::<(), Error>(Error::PrimaryKeyBindingSignature),
    {
        let is_binding = match self.typ {
            SignatureType::PrimaryKeyBinding => true,
            _ => false,
        };
        if !is_binding {
            return Err(Error::PrimaryKeyBindingSignature);
        }
        let mut payload: Vec<u8> = Vec::new();
        primary.push_body(&mut payload);
        sub.push_body(&mut payload);
        payload.push(self.typ.code());
        push_be32(&mut payload, self.created_at);
        assert(payload@ =~= reverse_payload(primary@, sub@, self@));
        if check_tag(&sub.key_bytes, &payload, &self.sig_bytes) {
            Ok(())
        } else {
            Err(Error::PrimaryKeyBindingSignature)
        }
    }

    /// A fresh deep copy.
    pub fn duplicate(&self) -> (r: EmbeddedSig)
        ensures
            r@ == self@,
    {
        EmbeddedSig {
            typ: self.typ,
            created_at: self.created_at,
            sig_bytes: copy_bytes(&self.sig_bytes),
        }
    }
}

/// A fresh deep copy of a subpacket list.
pub fn copy_subpackets(sps: &Vec<Subpacket>) -> (r: Vec<Subpacket>)
    ensures
        sp_views(r@) == sp_views(sps@),
{
    let mut out: Vec<Subpacket> = Vec::new();
    let mut i: usize = 0;
    assert(sp_views(out@) =~= sp_views(sps@).take(0));
    while i < sps.len()
        invariant
            i <= sps@.len(),
            sp_views(out@) == sp_views(sps@).take(i as int),
        decreases sps@.len() - i,
    {
        let ghost prev = out@;
        let p = sps[i].duplicate();
        out.push(p);
        proof {
            assert(sp_views(out@) =~= sp_views(prev).push(p@));
            assert(sp_views(sps@).take(i as int).push(sp_views(sps@)[i as int]) =~= sp_views(
                sps@,
            ).take(i + 1));
        }
        i = i + 1;
    }
    assert(sp_views(sps@).take(sps@.len() as int) =~= sp_views(sps@));
    out
}

/// Scan a subpacket list for its first key-flags octet.
fn scan_key_flags(sps: &Vec<Subpacket>) -> (r: Option<u8>)
    ensures
        r == first_key_flags(sp_views(sps@)),
{
    let ghost views = sp_views(sps@);
    let mut i: usize = 0;
    assert(views.skip(0) =~= views);
    while i < sps.len()
        invariant
            i <= sps@.len(),
            views == sp_views(sps@),
            first_key_flags(views) == first_key_flags(views.skip(i as int)),
        decreases sps@.len() - i,
    {
        proof {
            assert(views.skip(i as int)[0] == views[i as int]);
            assert(views.skip(i as int).skip(1) =~= views.skip(i + 1));
        }
        match &sps[i] {
            Subpacket::KeyFlags(f) => {
                return Some(*f);
            },
            _ => {},
        }
        i = i + 1;
    }
    proof {
        assert(views.skip(views.len() as int) =~= Seq::<SubpacketV>::empty());
    }
    None
}

/// Scan a subpacket list for its first embedded signature.
fn scan_embedded(sps: &Vec<Subpacket>) -> (r: Option<&EmbeddedSig>)
    ensures
        first_embedded(sp_views(sps@)) == (match r {
            Some(e) => Some(e@),
            None => None::<EmbeddedSigV>,
        }),
{
    let ghost views = sp_views(sps@);
    let mut i: usize = 0;
    assert(views.skip(0) =~= views);
    while i < sps.len()
        invariant
            i <= sps@.len(),
            views == sp_views(sps@),
            first_embedded(views) == first_embedded(views.skip(i as int)),
        decreases sps@.len() - i,
    {
        proof {
            assert(views.skip(i as int)[0] == views[i as int]);
            assert(views.skip(i as int).skip(1) =~= views.skip(i + 1));
        }
        match &sps[i] {
            Subpacket::EmbeddedSignature(e) => {
                return Some(e);
            },
            _ => {},
        }
        i = i + 1;
    }
    proof {
        assert(views.skip(views.len() as int) =~= Seq::<SubpacketV>::empty());
    }
    None
}

} // verus!
