//! The certificate itself: assembly from grouped packets (dropping unsigned
//! subkeys and wrong-typed trailing signatures), the binding verification
//! protocol, canonical serialization with its exact byte-count predictor,
//! and the read-only views.

use vstd::prelude::*;

use crate::details::{details_bytes, details_error, details_key_exp, details_valid, details_wf,
    sig_views, sigs_bytes, user_ids, SignedKeyDetails};
use crate::enc::copy_bytes;
use crate::key::{fingerprint_spec, key_body, key_wf, keystream_byte, KeyMaterial, KeyMaterialV,
    PkeskBytes};
use crate::sig::{first_embedded, forward_valid, reverse_valid, sig_embedded, sig_key_flags,
    sig_wf, EmbeddedSig, EmbeddedSigV, Signature, SignatureV};
use crate::types::{flags_sign_spec, sig_type_code_spec, AssemblyNote, Error, EskType,
    SignatureType};
use crate::wire::{concat_map, lemma_concat_map_prefix_len, lemma_concat_map_snoc, packet_bytes,
    push_packet};

verus! {

/// The ghost image of `SignedPublicSubKey`.
pub ghost struct SubkeyV {
    pub key: KeyMaterialV,
    pub sigs: Seq<SignatureV>,
}

/// A public subkey together with the binding signatures trailing it.
#[derive(Debug, Clone, PartialEq, Eq)]
pub struct SignedPublicSubKey {
    pub key: KeyMaterial,
    pub signatures: Vec<Signature>,
}

impl View for SignedPublicSubKey {
    type V = SubkeyV;

    open spec fn view(&self) -> SubkeyV {
        SubkeyV { key: self.key@, sigs: sig_views(self.signatures@) }
    }
}

/// The ghost images of a list of signed subkeys.
pub open spec fn subkey_views(s: Seq<SignedPublicSubKey>) -> Seq<SubkeyV> {
    s.map_values(|k: SignedPublicSubKey| k@)
}

/// A well-formed signed subkey.
pub open spec fn subkey_wf(sk: SubkeyV) -> bool {
    &&& key_wf(sk.key)
    &&& forall|i: int| 0 <= i < sk.sigs.len() ==> sig_wf(#[trigger] sk.sigs[i])
}

/// Whether a signature may trail a subkey: only subkey bindings and subkey
/// revocations are retained.
pub open spec fn keeps_sig_type(s: SignatureV) -> bool {
    s.typ == SignatureType::SubkeyBinding || s.typ == SignatureType::SubkeyRevocation
}

/// `keeps_sig_type` as a value, for sequence filtering.
pub open spec fn keep_sig_fn() -> spec_fn(SignatureV) -> bool {
    |s: SignatureV| keeps_sig_type(s)
}

/// Whether an assembled subkey is retained: it must keep at least one
/// signature.
pub open spec fn keeps_subkey(sk: SubkeyV) -> bool {
    sk.sigs.len() > 0
}

/// `keeps_subkey` as a value, for sequence filtering.
pub open spec fn keep_subkey_fn() -> spec_fn(SubkeyV) -> bool {
    |sk: SubkeyV| keeps_subkey(sk)
}

/// The first failure among a subkey's signatures, front to back: each must
/// be a valid forward binding, and a signing-capable one must carry a valid
/// reverse binding.
pub open spec fn subkey_sigs_error(
    primary: KeyMaterialV,
    sub: KeyMaterialV,
    sigs: Seq<SignatureV>,
) -> Option<Error>
    decreases sigs.len(),
{
    if sigs.len() == 0 {
        None
    } else if !forward_valid(primary, sub, sigs[0]) {
        Some(Error::SubkeyBindingSignature)
    } else if flags_sign_spec(sig_key_flags(sigs[0])) {
        match sig_embedded(sigs[0]) {
            None => Some(Error::MissingEmbeddedSignature),
            Some(e) => if !reverse_valid(primary, sub, e) {
                Some(Error::PrimaryKeyBindingSignature)
            } else {
                subkey_sigs_error(primary, sub, sigs.skip(1))
            },
        }
    } else {
        subkey_sigs_error(primary, sub, sigs.skip(1))
    }
}

/// The first failure of a subkey against the primary key.
pub open spec fn subkey_error(primary: KeyMaterialV, sk: SubkeyV) -> Option<Error> {
    if sk.sigs.len() == 0 {
        Some(Error::MissingSubkeyBindings)
    } else {
        subkey_sigs_error(primary, sk.key, sk.sigs)
    }
}

/// One signature passes the binding protocol for (primary, subkey).
pub open spec fn subkey_sig_ok(primary: KeyMaterialV, sub: KeyMaterialV, s: SignatureV) -> bool {
    &&& forward_valid(primary, sub, s)
    &&& (flags_sign_spec(sig_key_flags(s)) ==> sig_embedded(s) is Some && reverse_valid(
        primary,
        sub,
        sig_embedded(s).unwrap(),
    ))
}

/// A subkey passes verification: it has signatures and every one passes.
pub open spec fn subkey_valid(primary: KeyMaterialV, sk: SubkeyV) -> bool {
    &&& sk.sigs.len() > 0
    &&& forall|j: int| 0 <= j < sk.sigs.len() ==> subkey_sig_ok(primary, sk.key, #[trigger] sk.sigs[j])
}

/// A subkey reports no failure exactly when it is valid.
pub proof fn lemma_subkey_error_iff_valid(primary: KeyMaterialV, sk: SubkeyV)
    ensures
        subkey_error(primary, sk) is None <==> subkey_valid(primary, sk),
{
    if sk.sigs.len() > 0 {
        lemma_subkey_sigs_error_iff(primary, sk.key, sk.sigs);
    }
}

proof fn lemma_subkey_sigs_error_iff(primary: KeyMaterialV, sub: KeyMaterialV, sigs: Seq<SignatureV>)
    ensures
        subkey_sigs_error(primary, sub, sigs) is None <==> (forall|j: int|
            0 <= j < sigs.len() ==> subkey_sig_ok(primary, sub, #[trigger] sigs[j])),
    decreases sigs.len(),
{
    if sigs.len() > 0 {
        lemma_subkey_sigs_error_iff(primary, sub, sigs.skip(1));
        assert(forall|j: int|
            0 <= j < sigs.skip(1).len() ==> #[trigger] sigs.skip(1)[j] == sigs[j + 1]);
        if subkey_sigs_error(primary, sub, sigs) is None {
            assert forall|j: int| 0 <= j < sigs.len() implies subkey_sig_ok(
                primary,
                sub,
                #[trigger] sigs[j],
            ) by {
                if j > 0 {
                    assert(sigs.skip(1)[j - 1] == sigs[j]);
                }
            }
        }
        if (forall|j: int| 0 <= j < sigs.len() ==> subkey_sig_ok(primary, sub, #[trigger] sigs[j])) {
            assert(subkey_sig_ok(primary, sub, sigs[0]));
        }
    }
}

/// The first failure among a list of subkeys, front to back.
pub open spec fn subkeys_error(primary: KeyMaterialV, sks: Seq<SubkeyV>) -> Option<Error>
    decreases sks.len(),
{
    if sks.len() == 0 {
        None
    } else {
        match subkey_error(primary, sks[0]) {
            Some(e) => Some(e),
            None => subkeys_error(primary, sks.skip(1)),
        }
    }
}

proof fn lemma_subkeys_error_iff(primary: KeyMaterialV, sks: Seq<SubkeyV>)
    ensures
        subkeys_error(primary, sks) is None <==> (forall|i: int|
            0 <= i < sks.len() ==> subkey_valid(primary, #[trigger] sks[i])),
    decreases sks.len(),
{
    if sks.len() > 0 {
        lemma_subkey_error_iff_valid(primary, sks[0]);
        lemma_subkeys_error_iff(primary, sks.skip(1));
        assert(forall|i: int|
            0 <= i < sks.skip(1).len() ==> #[trigger] sks.skip(1)[i] == sks[i + 1]);
        if subkeys_error(primary, sks) is None {
            assert forall|i: int| 0 <= i < sks.len() implies subkey_valid(
                primary,
                #[trigger] sks[i],
            ) by {
                if i > 0 {
                    assert(sks.skip(1)[i - 1] == sks[i]);
                }
            }
        }
        if (forall|i: int| 0 <= i < sks.len() ==> subkey_valid(primary, #[trigger] sks[i])) {
            lemma_subkey_error_iff_valid(primary, sks[0]);
        }
    }
}

/// The ghost image of `SignedPublicKey`.
pub ghost struct CertV {
    pub primary: KeyMaterialV,
    pub details: crate::details::DetailsV,
    pub subkeys: Seq<SubkeyV>,
}

/// A transferable public key: the primary key, its identity details, and
/// its signed subkeys, in order.
#[derive(Debug, Clone, PartialEq, Eq)]
pub struct SignedPublicKey {
    pub primary_key: KeyMaterial,
    pub details: SignedKeyDetails,
    pub public_subkeys: Vec<SignedPublicSubKey>,
}

impl View for SignedPublicKey {
    type V = CertV;

    open spec fn view(&self) -> CertV {
        CertV {
            primary: self.primary_key@,
            details: self.details@,
            subkeys: subkey_views(self.public_subkeys@),
        }
    }
}

/// A well-formed certificate.
pub open spec fn cert_wf(c: CertV) -> bool {
    &&& key_wf(c.primary)
    &&& details_wf(c.details)
    &&& forall|i: int| 0 <= i < c.subkeys.len() ==> subkey_wf(#[trigger] c.subkeys[i])
}

/// Every subkey of the certificate holds at least one signature.
pub open spec fn all_subkeys_signed(c: CertV) -> bool {
    forall|i: int| 0 <= i < c.subkeys.len() ==> keeps_subkey(#[trigger] c.subkeys[i])
}

/// The shape every assembled certificate has: each retained subkey holds at
/// least one signature, and every retained signature is a binding or a
/// revocation.
pub open spec fn assembled_shape(c: CertV) -> bool {
    forall|i: int|
        0 <= i < c.subkeys.len() ==> keeps_subkey(#[trigger] c.subkeys[i]) && (forall|j: int|
            0 <= j < c.subkeys[i].sigs.len() ==> keeps_sig_type(#[trigger] c.subkeys[i].sigs[j]))
}

/// The first failure of the whole certificate: the details bundle first,
/// then each subkey in order.
pub open spec fn cert_error(c: CertV) -> Option<Error> {
    match details_error(c.primary, c.details) {
        Some(e) => Some(e),
        None => subkeys_error(c.primary, c.subkeys),
    }
}

/// The certificate passes verification: all identity self-signatures are
/// valid, and every subkey's every signature passes the binding protocol.
pub open spec fn cert_valid(c: CertV) -> bool {
    &&& details_valid(c.primary, c.details)
    &&& forall|i: int| 0 <= i < c.subkeys.len() ==> subkey_valid(c.primary, #[trigger] c.subkeys[i])
}

/// Verification reports no failure exactly when the certificate is valid:
/// all identity self-signatures hold, every subkey signature is a valid
/// forward binding, and every signing-capable subkey carries a valid
/// reverse binding.
pub proof fn lemma_cert_error_iff_valid(c: CertV)
    ensures
        cert_error(c) is None <==> cert_valid(c),
{
    crate::details::lemma_details_error_iff_valid(c.primary, c.details);
    lemma_subkeys_error_iff(c.primary, c.subkeys);
}

/// The wire form of a signed subkey: its key packet, then each signature
/// packet, in order.
pub open spec fn subkey_bytes(sk: SubkeyV) -> Seq<u8> {
    packet_bytes(14, key_body(sk.key)) + sigs_bytes(sk.sigs)
}

/// `subkey_bytes` as a value, for the list-level concatenation.
pub open spec fn subkey_bytes_fn() -> spec_fn(SubkeyV) -> Seq<u8> {
    |sk: SubkeyV| subkey_bytes(sk)
}

/// The canonical wire form of a certificate: the primary key packet, the
/// details bundle, then each subkey with its signatures, in order.
pub open spec fn cert_bytes(c: CertV) -> Seq<u8> {
    packet_bytes(6, key_body(c.primary)) + details_bytes(c.details) + concat_map(
        c.subkeys,
        subkey_bytes_fn(),
    )
}

impl SignedPublicSubKey {
    /// Assemble a signed subkey, retaining only signatures of type subkey
    /// binding or subkey revocation, and reporting a diagnostic for every
    /// dropped one.
    pub fn new_reported(key: KeyMaterial, signatures: Vec<Signature>) -> (r: (
        SignedPublicSubKey,
        Vec<AssemblyNote>,
    ))
        ensures
            r.0@.key == key@,
            r.0@.sigs == sig_views(signatures@).filter(keep_sig_fn()),
            r.1@ == dropped_sig_notes(sig_views(signatures@)),
    {
        let ghost views = sig_views(signatures@);
        let mut kept: Vec<Signature> = Vec::new();
        let mut notes: Vec<AssemblyNote> = Vec::new();
        let mut i: usize = 0;
        assert(sig_views(kept@) =~= views.take(0).filter(keep_sig_fn()));
        assert(notes@ =~= dropped_sig_notes(views.take(0)));
        while i < signatures.len()
            invariant
                i <= signatures@.len(),
                views == sig_views(signatures@),
                sig_views(kept@) == views.take(i as int).filter(keep_sig_fn()),
                notes@ == dropped_sig_notes(views.take(i as int)),
            decreases signatures@.len() - i,
        {
            let g = &signatures[i];
            proof {
                reveal(Seq::filter);
                assert(views.take(i + 1).drop_last() =~= views.take(i as int));
                assert(views.take(i + 1).last() == views[i as int]);
                assert(keep_sig_fn()(views[i as int]) == keeps_sig_type(views[i as int]));
            }
            let keep = match g.typ {
                SignatureType::SubkeyBinding => true,
                SignatureType::SubkeyRevocation => true,
                _ => false,
            };
            if keep {
                let ghost prev = kept@;
                let d = g.duplicate();
                kept.push(d);
                proof {
                    reveal(Seq::filter);
                    assert(sig_views(kept@) =~= sig_views(prev).push(d@));
                    assert(views.take(i + 1).filter(keep_sig_fn()) == views.take(
                        i as int,
                    ).filter(keep_sig_fn()).push(views[i as int]));
                    assert(sig_views(kept@) =~= views.take(i + 1).filter(keep_sig_fn()));
                    assert(drop_sig_fn()(views[i as int]) == false);
                    assert(views.take(i + 1).filter(drop_sig_fn()) == views.take(
                        i as int,
                    ).filter(drop_sig_fn()));
                    assert(dropped_sig_notes(views.take(i + 1)) =~= dropped_sig_notes(
                        views.take(i as int),
                    ));
                }
            } else {
                let ghost prevn = notes@;
                notes.push(AssemblyNote::UnexpectedSignatureType(g.typ.code()));
                proof {
                    reveal(Seq::filter);
                    assert(views.take(i + 1).filter(keep_sig_fn()) =~= views.take(
                        i as int,
                    ).filter(keep_sig_fn()));
                    assert(drop_sig_fn()(views[i as int]) == true);
                    assert(views.take(i + 1).filter(drop_sig_fn()) == views.take(
                        i as int,
                    ).filter(drop_sig_fn()).push(views[i as int]));
                    assert(dropped_sig_notes(views.take(i + 1)) =~= prevn.push(
                        AssemblyNote::UnexpectedSignatureType(
                            sig_type_code_spec(views[i as int].typ),
                        ),
                    ));
                }
            }
            i = i + 1;
        }
        assert(views.take(views.len() as int) =~= views);
        (SignedPublicSubKey { key, signatures: kept }, notes)
    }

    /// Assemble a signed subkey, retaining only binding and revocation
    /// signatures and discarding the diagnostics.
    pub fn new(key: KeyMaterial, signatures: Vec<Signature>) -> (r: SignedPublicSubKey)
        ensures
            r@.key == key@,
            r@.sigs == sig_views(signatures@).filter(keep_sig_fn()),
    {
        let (sk, _) = Self::new_reported(key, signatures);
        sk
    }

    /// Verify every signature of this subkey against the primary key:
    /// each must be a valid forward binding, and any that marks the subkey
    /// signing-capable must carry a valid embedded reverse binding.
    /// The first failure in scan order is reported; a subkey without
    /// signatures fails outright.
    pub fn verify(&self, key: &KeyMaterial) -> (r: Result<(), Error>)
        requires
            key_wf(key@),
            subkey_wf(self@),
        ensures
            (r is Ok) == subkey_valid(key@, self@),
            subkey_error(key@, self@) == (match r {
                Ok(()) => None::<Error>,
                Err(e) => Some(e),
            }),
    {
        proof {
            lemma_subkey_error_iff_valid(key@, self@);
        }
        if self.signatures.len() == 0 {
            return Err(Error::MissingSubkeyBindings);
        }
        let ghost sigs = self@.sigs;
        let mut j: usize = 0;
        assert(sigs.skip(0) =~= sigs);
        while j < self.signatures.len()
            invariant
                j <= self.signatures@.len(),
                sigs == self@.sigs,
                subkey_wf(self@),
                key_wf(key@),
                subkey_sigs_error(key@, self@.key, sigs) == subkey_sigs_error(
                    key@,
                    self@.key,
                    sigs.skip(j as int),
                ),
            decreases self.signatures@.len() - j,
        {
            proof {
                assert(sigs.skip(j as int)[0] == sigs[j as int]);
                assert(sigs.skip(j as int).skip(1) =~= sigs.skip(j + 1));
            }
            let g = &self.signatures[j];
            match g.verify_subkey_binding(key, &self.key) {
                Ok(()) => {},
                Err(e) => {
                    return Err(e);
                },
            }
            if crate::types::flags_sign(g.key_flags()) {
                match g.embedded_signature() {
                    None => {
                        return Err(Error::MissingEmbeddedSignature);
                    },
                    Some(backsig) => {
                        match backsig.verify_primary_key_binding(&self.key, key) {
                            Ok(()) => {},
                            Err(e) => {
                                return Err(e);
                            },
                        }
                    },
                }
            }
            j = j + 1;
        }
        assert(sigs.skip(sigs.len() as int) =~= Seq::<SignatureV>::empty());
        Ok(())
    }

    /// The unsigned view of this subkey, derived from its first signature
    /// alone: that signature's key flags and the embedded signature of its
    /// hashed area, if any. Verification checks all signatures; this view
    /// deliberately trusts only the first.
    pub fn as_unsigned(&self) -> (r: PublicSubkey)
        requires
            self@.sigs.len() > 0,
        ensures
            r@ == unsigned_subkey(self@),
    {
        let sig = &self.signatures[0];
        let keyflags = sig.key_flags();
        let embedded: Option<EmbeddedSig> = match sig.hashed_embedded() {
            Some(e) => Some(e.duplicate()),
            None => None,
        };
        PublicSubkey { key: self.key.duplicate(), key_flags: keyflags, embedded }
    }

    /// Encrypt `plain` to this subkey.
    pub fn encrypt(&self, seed: &Vec<u8>, plain: &Vec<u8>, typ: EskType) -> (r: PkeskBytes)
        requires
            key_wf(self@.key),
            seed@.len() + 4 <= u32::MAX,
            plain@.len() <= u32::MAX,
        ensures
            r.typ == typ,
            r.key_id@ == fingerprint_spec(self@.key),
            r.seed@ == seed@,
            r.body@.len() == plain@.len(),
            forall|i: int|
                0 <= i < plain@.len() ==> r.body@[i] == (plain@[i] ^ keystream_byte(
                    self@.key.key_bytes,
                    seed@,
                    i,
                )),
    {
        self.key.encrypt(seed, plain, typ)
    }

    /// Append the wire form of this subkey to `out`.
    pub fn to_writer(&self, out: &mut Vec<u8>)
        requires
            subkey_wf(self@),
        ensures
            final(out)@ == old(out)@ + subkey_bytes(self@),
    {
        let body = self.key.body_bytes();
        push_packet(out, 14, &body);
        proof {
            assert(self@.sigs == sig_views(self.signatures@));
            assert(forall|i: int|
                0 <= i < self.signatures@.len() ==> sig_wf(
                    #[trigger] sig_views(self.signatures@)[i],
                ));
        }
        crate::details::push_signatures(out, &self.signatures);
        assert(out@ =~= old(out)@ + subkey_bytes(self@));
    }

    /// The byte count of this subkey's wire form: exactly what `to_writer`
    /// would emit.
    pub fn write_len(&self) -> (r: usize)
        requires
            subkey_wf(self@),
            subkey_bytes(self@).len() <= usize::MAX,
        ensures
            r == subkey_bytes(self@).len(),
    {
        let key_len = self.key.body_len();
        let w = crate::enc::fixed_encoding_len(key_len as u32);
        proof {
            crate::key::lemma_key_body_len(self@.key);
            assert(self@.sigs == sig_views(self.signatures@));
            assert(forall|i: int|
                0 <= i < self.signatures@.len() ==> sig_wf(
                    #[trigger] sig_views(self.signatures@)[i],
                ));
        }
        let slen = crate::details::signatures_len(&self.signatures);
        1 + w + key_len + slen
    }

    /// The subkey's own key version.
    pub fn version(&self) -> (r: u8)
        ensures
            r == self@.key.version,
    {
        self.key.version()
    }

    /// The subkey's own fingerprint — never the primary's.
    pub fn fingerprint(&self) -> (r: Vec<u8>)
        requires
            key_wf(self@.key),
        ensures
            r@ == fingerprint_spec(self@.key),
    {
        self.key.fingerprint()
    }

    /// The subkey's own key identifier.
    pub fn key_id(&self) -> (r: Vec<u8>)
        requires
            key_wf(self@.key),
        ensures
            r@ == fingerprint_spec(self@.key),
    {
        self.key.key_id()
    }

    /// The subkey's public key algorithm.
    pub fn algorithm(&self) -> (r: u8)
        ensures
            r == self@.key.algorithm,
    {
        self.key.algorithm()
    }

    /// The subkey's public parameters.
    pub fn public_params(&self) -> (r: &Vec<u8>)
        ensures
            r@ == self@.key.key_bytes,
    {
        self.key.public_params()
    }

    /// The subkey's creation time.
    pub fn created_at(&self) -> (r: u32)
        ensures
            r == self@.key.created_at,
    {
        self.key.created_at()
    }

    /// The subkey's legacy validity period.
    pub fn expiration(&self) -> (r: Option<u16>)
        ensures
            r == self@.key.expiration,
    {
        self.key.expiration()
    }

    /// Whether `sig` is a valid signature by this subkey over `data`.
    pub fn verify_signature(&self, data: &Vec<u8>, sig: &Vec<u8>) -> (r: Result<(), Error>)
        requires
            key_wf(self@.key),
        ensures
            r is Ok <==> sig@ == crate::tag::key_tag(self@.key.key_bytes, data@),
    {
        self.key.verify_signature(data, sig)
    }
}

/// The complement of `keeps_sig_type`, as a value.
pub open spec fn drop_sig_fn() -> spec_fn(SignatureV) -> bool {
    |s: SignatureV| !keeps_sig_type(s)
}

/// The diagnostic for one dropped signature, as a value.
pub open spec fn sig_note_fn() -> spec_fn(SignatureV) -> AssemblyNote {
    |s: SignatureV| AssemblyNote::UnexpectedSignatureType(sig_type_code_spec(s.typ))
}

/// The diagnostics for the dropped signatures of one subkey, in scan order.
pub open spec fn dropped_sig_notes(s: Seq<SignatureV>) -> Seq<AssemblyNote> {
    s.filter(drop_sig_fn()).map_values(sig_note_fn())
}

/// The unsigned view of a signed subkey: its key material, and the key
/// flags and hashed-area embedded signature of its first signature.
pub open spec fn unsigned_subkey(sk: SubkeyV) -> PublicSubkeyV
    recommends
        sk.sigs.len() > 0,
{
    PublicSubkeyV {
        key: sk.key,
        key_flags: sig_key_flags(sk.sigs[0]),
        embedded: first_embedded(sk.sigs[0].hashed),
    }
}

/// The ghost image of `PublicSubkey`.
pub ghost struct PublicSubkeyV {
    pub key: KeyMaterialV,
    pub key_flags: u8,
    pub embedded: Option<EmbeddedSigV>,
}

/// An unsigned subkey: key material, asserted key flags, and the optional
/// embedded reverse signature.
#[derive(Debug, Clone, PartialEq, Eq)]
pub struct PublicSubkey {
    pub key: KeyMaterial,
    pub key_flags: u8,
    pub embedded: Option<EmbeddedSig>,
}

impl View for PublicSubkey {
    type V = PublicSubkeyV;

    open spec fn view(&self) -> PublicSubkeyV {
        PublicSubkeyV {
            key: self.key@,
            key_flags: self.key_flags,
            embedded: (match self.embedded {
                Some(e) => Some(e@),
                None => None,
            }),
        }
    }
}

/// The ghost image of `PublicKey`.
pub ghost struct PublicKeyV {
    pub primary: KeyMaterialV,
    pub user_ids: Seq<Seq<u8>>,
    pub subkeys: Seq<PublicSubkeyV>,
}

/// An unsigned certificate: the signed certificate with every signature
/// stripped, an independently owned value.
#[derive(Debug, Clone, PartialEq, Eq)]
pub struct PublicKey {
    pub primary_key: KeyMaterial,
    pub user_ids: Vec<Vec<u8>>,
    pub subkeys: Vec<PublicSubkey>,
}

/// The ghost images of a list of unsigned subkeys.
pub open spec fn public_subkey_views(s: Seq<PublicSubkey>) -> Seq<PublicSubkeyV> {
    s.map_values(|k: PublicSubkey| k@)
}

impl View for PublicKey {
    type V = PublicKeyV;

    open spec fn view(&self) -> PublicKeyV {
        PublicKeyV {
            primary: self.primary_key@,
            user_ids: crate::details::byte_vec_views(self.user_ids@),
            subkeys: public_subkey_views(self.subkeys@),
        }
    }
}

impl SignedPublicKey {
    /// Assemble a certificate from a primary key, its details bundle, and
    /// already-grouped signed subkeys: every subkey without signatures is
    /// dropped, with a diagnostic — assembly never fails.
    pub fn new_reported(
        primary_key: KeyMaterial,
        details: SignedKeyDetails,
        public_subkeys: Vec<SignedPublicSubKey>,
    ) -> (r: (SignedPublicKey, Vec<AssemblyNote>))
        ensures
            r.0@.primary == primary_key@,
            r.0@.details == details@,
            r.0@.subkeys == subkey_views(public_subkeys@).filter(keep_subkey_fn()),
            r.1@ == dropped_subkey_notes(subkey_views(public_subkeys@)),
    {
        let ghost views = subkey_views(public_subkeys@);
        let mut kept: Vec<SignedPublicSubKey> = Vec::new();
        let mut notes: Vec<AssemblyNote> = Vec::new();
        let mut i: usize = 0;
        assert(subkey_views(kept@) =~= views.take(0).filter(keep_subkey_fn()));
        assert(notes@ =~= dropped_subkey_notes(views.take(0)));
        let rest = public_subkeys;
        let ghost orig = rest@;
        while i < rest.len()
            invariant
                i <= rest@.len(),
                rest@ == orig,
                views == subkey_views(orig),
                subkey_views(kept@) == views.take(i as int).filter(keep_subkey_fn()),
                notes@ == dropped_subkey_notes(views.take(i as int)),
            decreases rest@.len() - i,
        {
            proof {
                reveal(Seq::filter);
                assert(views.take(i + 1).drop_last() =~= views.take(i as int));
                assert(views.take(i + 1).last() == views[i as int]);
                assert(keep_subkey_fn()(views[i as int]) == keeps_subkey(views[i as int]));
                assert(drop_subkey_fn()(views[i as int]) == !keeps_subkey(views[i as int]));
            }
            let sk = &rest[i];
            if sk.signatures.len() > 0 {
                let ghost prev = kept@;
                let d = SignedPublicSubKey {
                    key: sk.key.duplicate(),
                    signatures: crate::details::copy_signatures(&sk.signatures),
                };
                kept.push(d);
                proof {
                    reveal(Seq::filter);
                    assert(d@ == views[i as int]);
                    assert(subkey_views(kept@) =~= subkey_views(prev).push(d@));
                    assert(views.take(i + 1).filter(keep_subkey_fn()) == views.take(
                        i as int,
                    ).filter(keep_subkey_fn()).push(views[i as int]));
                    assert(subkey_views(kept@) =~= views.take(i + 1).filter(keep_subkey_fn()));
                    assert(views.take(i + 1).filter(drop_subkey_fn()) == views.take(
                        i as int,
                    ).filter(drop_subkey_fn()));
                    assert(dropped_subkey_notes(views.take(i + 1)) =~= dropped_subkey_notes(
                        views.take(i as int),
                    ));
                }
            } else {
                let ghost prevn = notes@;
                notes.push(AssemblyNote::UnsignedSubkey);
                proof {
                    reveal(Seq::filter);
                    assert(views.take(i + 1).filter(keep_subkey_fn()) =~= views.take(
                        i as int,
                    ).filter(keep_subkey_fn()));
                    assert(views.take(i + 1).filter(drop_subkey_fn()) == views.take(
                        i as int,
                    ).filter(drop_subkey_fn()).push(views[i as int]));
                    assert(dropped_subkey_notes(views.take(i + 1)) =~= prevn.push(
                        AssemblyNote::UnsignedSubkey,
                    ));
                }
            }
            i = i + 1;
        }
        assert(views.take(views.len() as int) =~= views);
        (SignedPublicKey { primary_key, details, public_subkeys: kept }, notes)
    }

    /// Assemble a certificate, discarding the diagnostics.
    pub fn new(
        primary_key: KeyMaterial,
        details: SignedKeyDetails,
        public_subkeys: Vec<SignedPublicSubKey>,
    ) -> (r: SignedPublicKey)
        ensures
            r@.primary == primary_key@,
            r@.details == details@,
            r@.subkeys == subkey_views(public_subkeys@).filter(keep_subkey_fn()),
    {
        let (c, _) = Self::new_reported(primary_key, details, public_subkeys);
        c
    }

    /// Verify the whole certificate, aborting at the first failure: the
    /// details bundle's self-signatures first, then every subkey's every
    /// binding signature. Succeeds exactly when the certificate is valid.
    pub fn verify(&self) -> (r: Result<(), Error>)
        requires
            cert_wf(self@),
        ensures
            (r is Ok) == cert_valid(self@),
            cert_error(self@) == (match r {
                Ok(()) => None::<Error>,
                Err(e) => Some(e),
            }),
    {
        proof {
            lemma_cert_error_iff_valid(self@);
            crate::details::lemma_details_error_iff_valid(self@.primary, self@.details);
        }
        match self.details.verify(&self.primary_key) {
            Ok(()) => {},
            Err(e) => {
                return Err(e);
            },
        }
        match self.verify_public_subkeys() {
            Ok(()) => Ok(()),
            Err(e) => Err(e),
        }
    }

    /// Verify each subkey in order, reporting the first failure.
    fn verify_public_subkeys(&self) -> (r: Result<(), Error>)
        requires
            cert_wf(self@),
        ensures
            subkeys_error(self@.primary, self@.subkeys) == (match r {
                Ok(()) => None::<Error>,
                Err(e) => Some(e),
            }),
    {
        let ghost sks = self@.subkeys;
        let mut i: usize = 0;
        assert(sks.skip(0) =~= sks);
        while i < self.public_subkeys.len()
            invariant
                i <= self.public_subkeys@.len(),
                sks == self@.subkeys,
                cert_wf(self@),
                subkeys_error(self@.primary, sks) == subkeys_error(
                    self@.primary,
                    sks.skip(i as int),
                ),
            decreases self.public_subkeys@.len() - i,
        {
            proof {
                assert(sks.skip(i as int)[0] == sks[i as int]);
                assert(sks.skip(i as int).skip(1) =~= sks.skip(i + 1));
            }
            match self.public_subkeys[i].verify(&self.primary_key) {
                Ok(()) => {},
                Err(e) => {
                    return Err(e);
                },
            }
            i = i + 1;
        }
        assert(sks.skip(sks.len() as int) =~= Seq::<SubkeyV>::empty());
        Ok(())
    }

    /// The key expiration as a point in time: the primary key's creation
    /// time plus the duration the details bundle reports, or absence when
    /// no expiration subpacket exists — such a key never expires.
    pub fn expires_at(&self) -> (r: Option<u64>)
        ensures
            r == (match details_key_exp(self@.details) {
                None => None::<u64>,
                Some(d) => Some((self@.primary.created_at + d) as u64),
            }),
    {
        match self.details.key_expiration_time() {
            None => None,
            Some(d) => Some(self.primary_key.created_at() as u64 + d as u64),
        }
    }

    /// The unsigned projection: the primary key, the user ids without
    /// their signatures, and each subkey reduced to what its first
    /// signature asserts. A fresh value, never aliasing the original.
    pub fn as_unsigned(&self) -> (r: PublicKey)
        requires
            all_subkeys_signed(self@),
        ensures
            r@.primary == self@.primary,
            r@.user_ids == user_ids(self@.details.users),
            r@.subkeys == self@.subkeys.map_values(unsigned_subkey_fn()),
    {
        let mut subkeys: Vec<PublicSubkey> = Vec::new();
        let mut i: usize = 0;
        assert(public_subkey_views(subkeys@) =~= self@.subkeys.map_values(
            unsigned_subkey_fn(),
        ).take(0));
        while i < self.public_subkeys.len()
            invariant
                i <= self.public_subkeys@.len(),
                all_subkeys_signed(self@),
                public_subkey_views(subkeys@) == self@.subkeys.map_values(
                    unsigned_subkey_fn(),
                ).take(i as int),
            decreases self.public_subkeys@.len() - i,
        {
            let ghost prev = subkeys@;
            proof {
                assert(keeps_subkey(self@.subkeys[i as int]));
            }
            let u = self.public_subkeys[i].as_unsigned();
            subkeys.push(u);
            proof {
                assert(public_subkey_views(subkeys@) =~= public_subkey_views(prev).push(u@));
                assert(u@ == self@.subkeys.map_values(unsigned_subkey_fn())[i as int]);
                assert(self@.subkeys.map_values(unsigned_subkey_fn()).take(i as int).push(
                    self@.subkeys.map_values(unsigned_subkey_fn())[i as int],
                ) =~= self@.subkeys.map_values(unsigned_subkey_fn()).take(i + 1));
            }
            i = i + 1;
        }
        assert(self@.subkeys.map_values(unsigned_subkey_fn()).take(self.public_subkeys@.len() as int)
            =~= self@.subkeys.map_values(unsigned_subkey_fn()));
        PublicKey {
            primary_key: self.primary_key.duplicate(),
            user_ids: self.details.as_unsigned(),
            subkeys,
        }
    }

    /// Encrypt `plain` to the primary key.
    pub fn encrypt(&self, seed: &Vec<u8>, plain: &Vec<u8>, typ: EskType) -> (r: PkeskBytes)
        requires
            key_wf(self@.primary),
            seed@.len() + 4 <= u32::MAX,
            plain@.len() <= u32::MAX,
        ensures
            r.typ == typ,
            r.key_id@ == fingerprint_spec(self@.primary),
            r.seed@ == seed@,
            r.body@.len() == plain@.len(),
            forall|i: int|
                0 <= i < plain@.len() ==> r.body@[i] == (plain@[i] ^ keystream_byte(
                    self@.primary.key_bytes,
                    seed@,
                    i,
                )),
    {
        self.primary_key.encrypt(seed, plain, typ)
    }

    /// Append the canonical wire form of the certificate to `out`: the
    /// primary key packet, the details bundle, then each subkey in order.
    #[verifier::rlimit(50)]
    pub fn to_writer(&self, out: &mut Vec<u8>)
        requires
            cert_wf(self@),
        ensures
            final(out)@ == old(out)@ + cert_bytes(self@),
    {
        let body = self.primary_key.body_bytes();
        push_packet(out, 6, &body);
        self.details.to_writer(out);
        let ghost sks = self@.subkeys;
        let ghost mid = out@;
        let mut i: usize = 0;
        assert(out@ =~= mid + concat_map(sks.take(0), subkey_bytes_fn()));
        while i < self.public_subkeys.len()
            invariant
                i <= self.public_subkeys@.len(),
                sks == self@.subkeys,
                cert_wf(self@),
                out@ == mid + concat_map(sks.take(i as int), subkey_bytes_fn()),
            decreases self.public_subkeys@.len() - i,
        {
            proof {
                lemma_concat_map_snoc(sks.take(i as int), sks[i as int], subkey_bytes_fn());
                assert(sks.take(i as int).push(sks[i as int]) =~= sks.take(i + 1));
            }
            self.public_subkeys[i].to_writer(out);
            i = i + 1;
        }
        proof {
            assert(sks.take(sks.len() as int) =~= sks);
            assert(out@ =~= old(out)@ + cert_bytes(self@));
        }
    }

    /// The canonical wire form of the certificate, as a fresh buffer.
    pub fn to_bytes(&self) -> (r: Vec<u8>)
        requires
            cert_wf(self@),
        ensures
            r@ == cert_bytes(self@),
    {
        let mut out: Vec<u8> = Vec::new();
        self.to_writer(&mut out);
        out
    }

    /// The byte count of the canonical wire form: exactly what `to_writer`
    /// would emit, computed without writing anything.
    #[verifier::rlimit(50)]
    pub fn write_len(&self) -> (r: usize)
        requires
            cert_wf(self@),
            cert_bytes(self@).len() <= usize::MAX,
        ensures
            r == cert_bytes(self@).len(),
    {
        let key_len = self.primary_key.body_len();
        let w = crate::enc::fixed_encoding_len(key_len as u32);
        proof {
            crate::key::lemma_key_body_len(self@.primary);
        }
        let mut sum: usize = 1 + w + key_len;
        let ghost sks = self@.subkeys;
        proof {
            assert(details_bytes(self@.details).len() <= cert_bytes(self@).len());
        }
        let dlen = self.details.write_len();
        sum = sum + dlen;
        let mut i: usize = 0;
        assert(concat_map(sks.take(0), subkey_bytes_fn()) =~= Seq::<u8>::empty());
        while i < self.public_subkeys.len()
            invariant
                i <= self.public_subkeys@.len(),
                sks == self@.subkeys,
                cert_wf(self@),
                cert_bytes(self@).len() <= usize::MAX,
                sum == packet_bytes(6, key_body(self@.primary)).len() + details_bytes(
                    self@.details,
                ).len() + concat_map(sks.take(i as int), subkey_bytes_fn()).len(),
            decreases self.public_subkeys@.len() - i,
        {
            proof {
                lemma_concat_map_snoc(sks.take(i as int), sks[i as int], subkey_bytes_fn());
                assert(sks.take(i as int).push(sks[i as int]) =~= sks.take(i + 1));
                lemma_concat_map_prefix_len(sks, i + 1, subkey_bytes_fn());
            }
            let sl = self.public_subkeys[i].write_len();
            sum = sum + sl;
            i = i + 1;
        }
        assert(sks.take(sks.len() as int) =~= sks);
        sum
    }

    /// The primary key's version.
    pub fn version(&self) -> (r: u8)
        ensures
            r == self@.primary.version,
    {
        self.primary_key.version()
    }

    /// The primary key's fingerprint.
    pub fn fingerprint(&self) -> (r: Vec<u8>)
        requires
            key_wf(self@.primary),
        ensures
            r@ == fingerprint_spec(self@.primary),
    {
        self.primary_key.fingerprint()
    }

    /// The primary key's key identifier.
    pub fn key_id(&self) -> (r: Vec<u8>)
        requires
            key_wf(self@.primary),
        ensures
            r@ == fingerprint_spec(self@.primary),
    {
        self.primary_key.key_id()
    }

    /// The primary key's public key algorithm.
    pub fn algorithm(&self) -> (r: u8)
        ensures
            r == self@.primary.algorithm,
    {
        self.primary_key.algorithm()
    }

    /// The primary key's public parameters.
    pub fn public_params(&self) -> (r: &Vec<u8>)
        ensures
            r@ == self@.primary.key_bytes,
    {
        self.primary_key.public_params()
    }

    /// The primary key's creation time.
    pub fn created_at(&self) -> (r: u32)
        ensures
            r == self@.primary.created_at,
    {
        self.primary_key.created_at()
    }

    /// The primary key's legacy validity period.
    pub fn expiration(&self) -> (r: Option<u16>)
        ensures
            r == self@.primary.expiration,
    {
        self.primary_key.expiration()
    }

    /// Whether `sig` is a valid signature by the primary key over `data`.
    pub fn verify_signature(&self, data: &Vec<u8>, sig: &Vec<u8>) -> (r: Result<(), Error>)
        requires
            key_wf(self@.primary),
        ensures
            r is Ok <==> sig@ == crate::tag::key_tag(self@.primary.key_bytes, data@),
    {
        self.primary_key.verify_signature(data, sig)
    }
}

/// `unsigned_subkey` as a value, for the list-level map.
pub open spec fn unsigned_subkey_fn() -> spec_fn(SubkeyV) -> PublicSubkeyV {
    |sk: SubkeyV| unsigned_subkey(sk)
}

/// The complement of `keeps_subkey`, as a value.
pub open spec fn drop_subkey_fn() -> spec_fn(SubkeyV) -> bool {
    |sk: SubkeyV| !keeps_subkey(sk)
}

/// The diagnostic for one dropped subkey, as a value.
pub open spec fn subkey_note_fn() -> spec_fn(SubkeyV) -> AssemblyNote {
    |sk: SubkeyV| AssemblyNote::UnsignedSubkey
}

/// The diagnostics for the dropped subkeys of a certificate, in scan order.
pub open spec fn dropped_subkey_notes(s: Seq<SubkeyV>) -> Seq<AssemblyNote> {
    s.filter(drop_subkey_fn()).map_values(subkey_note_fn())
}

/// The certificate an assembly of these inputs produces: each candidate
/// subkey keeps only binding and revocation signatures, and candidates
/// left without signatures are dropped.
pub open spec fn assemble(
    primary: KeyMaterialV,
    details: crate::details::DetailsV,
    raw: Seq<SubkeyV>,
) -> CertV {
    CertV {
        primary,
        details,
        subkeys: raw.map_values(filter_subkey_fn()).filter(keep_subkey_fn()),
    }
}

/// The subkey-level filtering of assembly, as a value.
pub open spec fn filter_subkey_fn() -> spec_fn(SubkeyV) -> SubkeyV {
    |sk: SubkeyV| SubkeyV { key: sk.key, sigs: sk.sigs.filter(keep_sig_fn()) }
}

/// Filtering keeps only elements of the original, so a property of every
/// element survives filtering.
proof fn lemma_filter_keeps_property<A>(s: Seq<A>, pred: spec_fn(A) -> bool, q: spec_fn(A) -> bool)
    requires
        forall|k: int| 0 <= k < s.len() ==> q(#[trigger] s[k]),
    ensures
        forall|i: int| 0 <= i < s.filter(pred).len() ==> q(#[trigger] s.filter(pred)[i]),
    decreases s.len(),
{
    reveal(Seq::filter);
    if s.len() > 0 {
        let rest = s.drop_last();
        assert(forall|k: int| 0 <= k < rest.len() ==> q(#[trigger] rest[k]));
        lemma_filter_keeps_property(rest, pred, q);
        if pred(s.last()) {
            assert(s.filter(pred) == rest.filter(pred).push(s.last()));
            assert forall|i: int| 0 <= i < s.filter(pred).len() implies q(
                #[trigger] s.filter(pred)[i],
            ) by {
                if i < rest.filter(pred).len() {
                    assert(s.filter(pred)[i] == rest.filter(pred)[i]);
                } else {
                    assert(s.filter(pred)[i] == s.last());
                }
            }
        } else {
            assert(s.filter(pred) == rest.filter(pred));
        }
    }
}

/// Every certificate assembled from any input has the assembled shape:
/// each retained subkey keeps at least one signature, and every retained
/// signature has type subkey binding or subkey revocation.
pub proof fn lemma_assembly_invariant(
    primary: KeyMaterialV,
    details: crate::details::DetailsV,
    raw: Seq<SubkeyV>,
)
    ensures
        assembled_shape(assemble(primary, details, raw)),
{
    let c = assemble(primary, details, raw);
    let filtered = raw.map_values(filter_subkey_fn());
    let typed = |sk: SubkeyV|
        (forall|j: int| 0 <= j < sk.sigs.len() ==> keeps_sig_type(#[trigger] sk.sigs[j]));
    assert forall|k: int| 0 <= k < filtered.len() implies typed(#[trigger] filtered[k]) by {
        assert(filtered[k] == filter_subkey_fn()(raw[k]));
        assert(filtered[k].sigs == raw[k].sigs.filter(keep_sig_fn()));
        assert forall|j: int| 0 <= j < filtered[k].sigs.len() implies keeps_sig_type(
            #[trigger] filtered[k].sigs[j],
        ) by {
            raw[k].sigs.lemma_filter_pred(keep_sig_fn(), j);
            assert(keep_sig_fn()(filtered[k].sigs[j]));
        }
    }
    lemma_filter_keeps_property(filtered, keep_subkey_fn(), typed);
    assert forall|i: int| 0 <= i < c.subkeys.len() implies keeps_subkey(#[trigger] c.subkeys[i])
        && (forall|j: int|
        0 <= j < c.subkeys[i].sigs.len() ==> keeps_sig_type(#[trigger] c.subkeys[i].sigs[j])) by {
        filtered.lemma_filter_pred(keep_subkey_fn(), i);
        assert(keep_subkey_fn()(c.subkeys[i]));
        assert(typed(c.subkeys[i]));
    }
}

} // verus!
