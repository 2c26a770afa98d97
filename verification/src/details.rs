//! The details bundle of a certificate: identity bindings (user ids with
//! their self-signatures), their verification, the key-expiration lookup,
//! and their wire encoding.

use vstd::prelude::*;

use crate::enc::{copy_bytes, len_enc_width};
use crate::key::{key_wf, KeyMaterial, KeyMaterialV};
use crate::sig::{cert_sig_valid, copy_subpackets, sig_body, sig_wf, Signature, SignatureV,
    SubpacketV};
use crate::types::Error;
use crate::wire::{concat_map, lemma_concat_map_prefix_len, lemma_concat_map_snoc};

verus! {

/// The ghost images of a list of signatures.
pub open spec fn sig_views(s: Seq<Signature>) -> Seq<SignatureV> {
    s.map_values(|g: Signature| g@)
}

/// The ghost image of `SignedUser`.
pub ghost struct SignedUserV {
    pub id: Seq<u8>,
    pub sigs: Seq<SignatureV>,
}

/// An identity binding: a user id and the self-signatures over it.
#[derive(Debug, Clone, PartialEq, Eq)]
pub struct SignedUser {
    pub id: Vec<u8>,
    pub signatures: Vec<Signature>,
}

impl View for SignedUser {
    type V = SignedUserV;

    open spec fn view(&self) -> SignedUserV {
        SignedUserV { id: self.id@, sigs: sig_views(self.signatures@) }
    }
}

/// The ghost images of a list of identity bindings.
pub open spec fn user_views(s: Seq<SignedUser>) -> Seq<SignedUserV> {
    s.map_values(|u: SignedUser| u@)
}

/// The views of a list of byte vectors.
pub open spec fn byte_vec_views(s: Seq<Vec<u8>>) -> Seq<Seq<u8>> {
    s.map_values(|v: Vec<u8>| v@)
}

/// The user ids of a list of identity bindings, in order.
pub open spec fn user_ids(users: Seq<SignedUserV>) -> Seq<Seq<u8>> {
    users.map_values(|u: SignedUserV| u.id)
}

/// The ghost image of `SignedKeyDetails`.
pub ghost struct DetailsV {
    pub users: Seq<SignedUserV>,
}

/// The details bundle of a certificate: its identity bindings, in order.
#[derive(Debug, Clone, PartialEq, Eq)]
pub struct SignedKeyDetails {
    pub users: Vec<SignedUser>,
}

impl View for SignedKeyDetails {
    type V = DetailsV;

    open spec fn view(&self) -> DetailsV {
        DetailsV { users: user_views(self.users@) }
    }
}

/// A well-formed identity binding: the id fits its packet framing and every
/// signature is well formed.
pub open spec fn user_wf(u: SignedUserV) -> bool {
    &&& u.id.len() <= 0xFFFF
    &&& forall|i: int| 0 <= i < u.sigs.len() ==> sig_wf(#[trigger] u.sigs[i])
}

/// A well-formed details bundle.
pub open spec fn details_wf(d: DetailsV) -> bool {
    forall|i: int| 0 <= i < d.users.len() ==> user_wf(#[trigger] d.users[i])
}

/// The first failure among one identity's self-signatures, front to back.
pub open spec fn user_sigs_error(primary: KeyMaterialV, id: Seq<u8>, sigs: Seq<SignatureV>) -> Option<
    Error,
>
    decreases sigs.len(),
{
    if sigs.len() == 0 {
        None
    } else if !cert_sig_valid(primary, id, sigs[0]) {
        Some(Error::IdentitySignature)
    } else {
        user_sigs_error(primary, id, sigs.skip(1))
    }
}

/// The first failure among all identity bindings, front to back.
pub open spec fn users_error(primary: KeyMaterialV, users: Seq<SignedUserV>) -> Option<Error>
    decreases users.len(),
{
    if users.len() == 0 {
        None
    } else {
        match user_sigs_error(primary, users[0].id, users[0].sigs) {
            Some(e) => Some(e),
            None => users_error(primary, users.skip(1)),
        }
    }
}

/// The first failure of the details bundle against the primary key.
pub open spec fn details_error(primary: KeyMaterialV, d: DetailsV) -> Option<Error> {
    users_error(primary, d.users)
}

/// Every identity self-signature of the bundle is valid.
pub open spec fn details_valid(primary: KeyMaterialV, d: DetailsV) -> bool {
    forall|i: int, j: int|
        0 <= i < d.users.len() && 0 <= j < d.users[i].sigs.len() ==> cert_sig_valid(
            primary,
            d.users[i].id,
            #[trigger] d.users[i].sigs[j],
        )
}

/// The bundle reports no failure exactly when every self-signature is
/// valid.
pub proof fn lemma_details_error_iff_valid(primary: KeyMaterialV, d: DetailsV)
    ensures
        details_error(primary, d) is None <==> details_valid(primary, d),
{
    lemma_users_error_iff(primary, d.users);
}

proof fn lemma_user_sigs_error_iff(primary: KeyMaterialV, id: Seq<u8>, sigs: Seq<SignatureV>)
    ensures
        user_sigs_error(primary, id, sigs) is None <==> (forall|j: int|
            0 <= j < sigs.len() ==> cert_sig_valid(primary, id, #[trigger] sigs[j])),
    decreases sigs.len(),
{
    if sigs.len() > 0 {
        lemma_user_sigs_error_iff(primary, id, sigs.skip(1));
        assert(forall|j: int|
            0 <= j < sigs.skip(1).len() ==> #[trigger] sigs.skip(1)[j] == sigs[j + 1]);
        if cert_sig_valid(primary, id, sigs[0]) && (forall|j: int|
            0 <= j < sigs.skip(1).len() ==> cert_sig_valid(primary, id, #[trigger] sigs.skip(
                1,
            )[j])) {
            assert forall|j: int| 0 <= j < sigs.len() implies cert_sig_valid(
                primary,
                id,
                #[trigger] sigs[j],
            ) by {
                if j > 0 {
                    assert(sigs.skip(1)[j - 1] == sigs[j]);
                }
            }
        }
    }
}

proof fn lemma_users_error_iff(primary: KeyMaterialV, users: Seq<SignedUserV>)
    ensures
        users_error(primary, users) is None <==> (forall|i: int, j: int|
            0 <= i < users.len() && 0 <= j < users[i].sigs.len() ==> cert_sig_valid(
                primary,
                users[i].id,
                #[trigger] users[i].sigs[j],
            )),
    decreases users.len(),
{
    if users.len() > 0 {
        lemma_user_sigs_error_iff(primary, users[0].id, users[0].sigs);
        lemma_users_error_iff(primary, users.skip(1));
        assert(forall|i: int|
            0 <= i < users.skip(1).len() ==> #[trigger] users.skip(1)[i] == users[i + 1]);
        if users_error(primary, users) is None {
            assert forall|i: int, j: int|
                0 <= i < users.len() && 0 <= j < users[i].sigs.len() implies cert_sig_valid(
                primary,
                users[i].id,
                #[trigger] users[i].sigs[j],
            ) by {
                if i > 0 {
                    assert(users.skip(1)[i - 1] == users[i]);
                }
            }
        }
        if (forall|i: int, j: int|
            0 <= i < users.len() && 0 <= j < users[i].sigs.len() ==> cert_sig_valid(
                primary,
                users[i].id,
                #[trigger] users[i].sigs[j],
            )) {
            assert forall|i: int, j: int|
                0 <= i < users.skip(1).len() && 0 <= j < users.skip(1)[i].sigs.len()
                    implies cert_sig_valid(
                primary,
                users.skip(1)[i].id,
                #[trigger] users.skip(1)[i].sigs[j],
            ) by {
                assert(users.skip(1)[i] == users[i + 1]);
            }
        }
    }
}

/// The first key-expiration duration among a subpacket list, front to back.
pub open spec fn first_key_exp(s: Seq<SubpacketV>) -> Option<u32>
    decreases s.len(),
{
    if s.len() == 0 {
        None
    } else {
        match s[0] {
            SubpacketV::KeyExpiration(d) => Some(d),
            _ => first_key_exp(s.skip(1)),
        }
    }
}

/// The first key-expiration duration among one identity's signatures.
pub open spec fn sigs_key_exp(sigs: Seq<SignatureV>) -> Option<u32>
    decreases sigs.len(),
{
    if sigs.len() == 0 {
        None
    } else {
        match first_key_exp(sigs[0].hashed) {
            Some(d) => Some(d),
            None => sigs_key_exp(sigs.skip(1)),
        }
    }
}

/// The key-expiration duration the details bundle reports: the first
/// key-expiration subpacket in the hashed area of any identity
/// self-signature, scanning users and signatures in order.
pub open spec fn details_key_exp(d: DetailsV) -> Option<u32>
    decreases d.users.len(),
{
    if d.users.len() == 0 {
        None
    } else {
        match sigs_key_exp(d.users[0].sigs) {
            Some(e) => Some(e),
            None => details_key_exp(DetailsV { users: d.users.skip(1) }),
        }
    }
}

/// The wire form of one identity binding: its user id packet, then each of
/// its signature packets, in order.
pub open spec fn user_bytes(u: SignedUserV) -> Seq<u8> {
    crate::wire::packet_bytes(13, u.id) + sigs_bytes(u.sigs)
}

/// `user_bytes` as a value, for the list-level concatenation.
pub open spec fn user_bytes_fn() -> spec_fn(SignedUserV) -> Seq<u8> {
    |u: SignedUserV| user_bytes(u)
}

/// The wire form of a signature packet.
pub open spec fn sig_packet(s: SignatureV) -> Seq<u8> {
    crate::wire::packet_bytes(2, sig_body(s))
}

/// `sig_packet` as a value, for the list-level concatenation.
pub open spec fn sig_packet_fn() -> spec_fn(SignatureV) -> Seq<u8> {
    |s: SignatureV| sig_packet(s)
}

/// The wire form of a signature list.
pub open spec fn sigs_bytes(s: Seq<SignatureV>) -> Seq<u8> {
    concat_map(s, sig_packet_fn())
}

/// The wire form of the details bundle.
pub open spec fn details_bytes(d: DetailsV) -> Seq<u8> {
    concat_map(d.users, user_bytes_fn())
}

/// Append the wire form of a signature list to `out`.
pub fn push_signatures(out: &mut Vec<u8>, sigs: &Vec<Signature>)
    requires
        forall|i: int| 0 <= i < sigs@.len() ==> sig_wf(#[trigger] sig_views(sigs@)[i]),
    ensures
        final(out)@ == old(out)@ + sigs_bytes(sig_views(sigs@)),
{
    let ghost views = sig_views(sigs@);
    let mut i: usize = 0;
    assert(out@ =~= old(out)@ + sigs_bytes(views.take(0)));
    while i < sigs.len()
        invariant
            i <= sigs@.len(),
            views == sig_views(sigs@),
            forall|j: int| 0 <= j < sigs@.len() ==> sig_wf(#[trigger] views[j]),
            out@ == old(out)@ + sigs_bytes(views.take(i as int)),
        decreases sigs@.len() - i,
    {
        proof {
            lemma_concat_map_snoc(views.take(i as int), views[i as int], sig_packet_fn());
            assert(views.take(i as int).push(views[i as int]) =~= views.take(i + 1));
        }
        let mut body: Vec<u8> = Vec::new();
        sigs[i].push_body(&mut body);
        crate::wire::push_packet(out, 2, &body);
        i = i + 1;
    }
    assert(views.take(views.len() as int) =~= views);
}

/// The byte count of the wire form of a signature list.
pub fn signatures_len(sigs: &Vec<Signature>) -> (r: usize)
    requires
        forall|i: int| 0 <= i < sigs@.len() ==> sig_wf(#[trigger] sig_views(sigs@)[i]),
        sigs_bytes(sig_views(sigs@)).len() <= usize::MAX,
    ensures
        r == sigs_bytes(sig_views(sigs@)).len(),
{
    let ghost views = sig_views(sigs@);
    let mut sum: usize = 0;
    let mut i: usize = 0;
    assert(sigs_bytes(views.take(0)) =~= Seq::<u8>::empty());
    while i < sigs.len()
        invariant
            i <= sigs@.len(),
            views == sig_views(sigs@),
            forall|j: int| 0 <= j < sigs@.len() ==> sig_wf(#[trigger] views[j]),
            sigs_bytes(views).len() <= usize::MAX,
            sum == sigs_bytes(views.take(i as int)).len(),
        decreases sigs@.len() - i,
    {
        proof {
            lemma_concat_map_snoc(views.take(i as int), views[i as int], sig_packet_fn());
            assert(views.take(i as int).push(views[i as int]) =~= views.take(i + 1));
            lemma_concat_map_prefix_len(views, i + 1, sig_packet_fn());
        }
        let body_len = sigs[i].body_len();
        let w = crate::enc::fixed_encoding_len(body_len as u32);
        assert(sig_packet(views[i as int]).len() == 1 + w + body_len);
        sum = sum + 1 + w + body_len;
        i = i + 1;
    }
    assert(views.take(views.len() as int) =~= views);
    sum
}

/// A fresh deep copy of a signature list.
pub fn copy_signatures(sigs: &Vec<Signature>) -> (r: Vec<Signature>)
    ensures
        sig_views(r@) == sig_views(sigs@),
{
    let mut out: Vec<Signature> = Vec::new();
    let mut i: usize = 0;
    assert(sig_views(out@) =~= sig_views(sigs@).take(0));
    while i < sigs.len()
        invariant
            i <= sigs@.len(),
            sig_views(out@) == sig_views(sigs@).take(i as int),
        decreases sigs@.len() - i,
    {
        let ghost prev = out@;
        let g = sigs[i].duplicate();
        out.push(g);
        proof {
            assert(sig_views(out@) =~= sig_views(prev).push(g@));
            assert(sig_views(sigs@).take(i as int).push(sig_views(sigs@)[i as int]) =~= sig_views(
                sigs@,
            ).take(i + 1));
        }
        i = i + 1;
    }
    assert(sig_views(sigs@).take(sigs@.len() as int) =~= sig_views(sigs@));
    out
}

impl SignedUser {
    /// A fresh deep copy.
    pub fn duplicate(&self) -> (r: SignedUser)
        ensures
            r@ == self@,
    {
        SignedUser { id: copy_bytes(&self.id), signatures: copy_signatures(&self.signatures) }
    }
}

impl SignedKeyDetails {
    /// Verify every identity self-signature against the primary key,
    /// reporting the first failure in scan order.
    pub fn verify(&self, primary: &KeyMaterial) -> (r: Result<(), Error>)
        requires
            key_wf(primary@),
            details_wf(self@),
        ensures
            (r is Ok) == details_valid(primary@, self@),
            r is Err ==> Some(r.unwrap_err()) == details_error(primary@, self@),
    {
        let ghost users = self@.users;
        let mut i: usize = 0;
        assert(users.skip(0) =~= users);
        while i < self.users.len()
            invariant
                i <= self.users@.len(),
                users == self@.users,
                details_wf(self@),
                key_wf(primary@),
                users_error(primary@, users) == users_error(primary@, users.skip(i as int)),
            decreases self.users@.len() - i,
        {
            proof {
                assert(users.skip(i as int)[0] == users[i as int]);
                assert(users.skip(i as int).skip(1) =~= users.skip(i + 1));
            }
            let u = &self.users[i];
            match Self::verify_user(primary, u) {
                Ok(()) => {},
                Err(e) => {
                    proof {
                        lemma_details_error_iff_valid(primary@, self@);
                    }
                    return Err(e);
                },
            }
            i = i + 1;
        }
        proof {
            assert(users.skip(users.len() as int) =~= Seq::<SignedUserV>::empty());
            lemma_details_error_iff_valid(primary@, self@);
        }
        Ok(())
    }

    /// Verify one identity's self-signatures, front to back.
    fn verify_user(primary: &KeyMaterial, u: &SignedUser) -> (r: Result<(), Error>)
        requires
            key_wf(primary@),
            user_wf(u@),
        ensures
            user_sigs_error(primary@, u@.id, u@.sigs) == (match r {
                Ok(()) => None::<Error>,
                Err(e) => Some(e),
            }),
    {
        let ghost sigs = u@.sigs;
        let mut j: usize = 0;
        assert(sigs.skip(0) =~= sigs);
        while j < u.signatures.len()
            invariant
                j <= u.signatures@.len(),
                sigs == u@.sigs,
                user_wf(u@),
                key_wf(primary@),
                user_sigs_error(primary@, u@.id, sigs) == user_sigs_error(
                    primary@,
                    u@.id,
                    sigs.skip(j as int),
                ),
            decreases u.signatures@.len() - j,
        {
            proof {
                assert(sigs.skip(j as int)[0] == sigs[j as int]);
                assert(sigs.skip(j as int).skip(1) =~= sigs.skip(j + 1));
            }
            match u.signatures[j].verify_certification(primary, &u.id) {
                Ok(()) => {},
                Err(e) => {
                    return Err(e);
                },
            }
            j = j + 1;
        }
        assert(sigs.skip(sigs.len() as int) =~= Seq::<SignatureV>::empty());
        Ok(())
    }

    /// The key-expiration duration the bundle reports, if any.
    pub fn key_expiration_time(&self) -> (r: Option<u32>)
        ensures
            r == details_key_exp(self@),
    {
        let ghost users = self@.users;
        let mut i: usize = 0;
        proof {
            assert(users.skip(0) =~= users);
            assert(DetailsV { users: users.skip(0) } == self@);
        }
        while i < self.users.len()
            invariant
                i <= self.users@.len(),
                users == self@.users,
                details_key_exp(self@) == details_key_exp(
                    DetailsV { users: users.skip(i as int) },
                ),
            decreases self.users@.len() - i,
        {
            proof {
                assert(users.skip(i as int)[0] == users[i as int]);
                assert(users.skip(i as int).skip(1) =~= users.skip(i + 1));
                assert(DetailsV { users: users.skip(i as int) }.users.skip(1) =~= users.skip(
                    i + 1,
                ));
            }
            match Self::user_key_exp(&self.users[i]) {
                Some(d) => {
                    return Some(d);
                },
                None => {},
            }
            i = i + 1;
        }
        assert(users.skip(users.len() as int) =~= Seq::<SignedUserV>::empty());
        None
    }

    /// The first key-expiration duration among one identity's signatures.
    fn user_key_exp(u: &SignedUser) -> (r: Option<u32>)
        ensures
            r == sigs_key_exp(u@.sigs),
    {
        let ghost sigs = u@.sigs;
        let mut j: usize = 0;
        assert(sigs.skip(0) =~= sigs);
        while j < u.signatures.len()
            invariant
                j <= u.signatures@.len(),
                sigs == u@.sigs,
                sigs_key_exp(sigs) == sigs_key_exp(sigs.skip(j as int)),
            decreases u.signatures@.len() - j,
        {
            proof {
                assert(sigs.skip(j as int)[0] == sigs[j as int]);
                assert(sigs.skip(j as int).skip(1) =~= sigs.skip(j + 1));
            }
            match Self::sig_key_exp_scan(&u.signatures[j]) {
                Some(d) => {
                    return Some(d);
                },
                None => {},
            }
            j = j + 1;
        }
        assert(sigs.skip(sigs.len() as int) =~= Seq::<SignatureV>::empty());
        None
    }

    /// The first key-expiration subpacket in a signature's hashed area.
    fn sig_key_exp_scan(g: &Signature) -> (r: Option<u32>)
        ensures
            r == first_key_exp(g@.hashed),
    {
        let ghost views = g@.hashed;
        let mut i: usize = 0;
        assert(views.skip(0) =~= views);
        while i < g.hashed.len()
            invariant
                i <= g.hashed@.len(),
                views == g@.hashed,
                first_key_exp(views) == first_key_exp(views.skip(i as int)),
            decreases g.hashed@.len() - i,
        {
            proof {
                assert(views.skip(i as int)[0] == views[i as int]);
                assert(views.skip(i as int).skip(1) =~= views.skip(i + 1));
            }
            match &g.hashed[i] {
                crate::sig::Subpacket::KeyExpiration(d) => {
                    return Some(*d);
                },
                _ => {},
            }
            i = i + 1;
        }
        assert(views.skip(views.len() as int) =~= Seq::<SubpacketV>::empty());
        None
    }

    /// The identity bindings stripped of their signatures: the user ids, in
    /// order.
    pub fn as_unsigned(&self) -> (r: Vec<Vec<u8>>)
        ensures
            byte_vec_views(r@) == user_ids(self@.users),
    {
        let mut out: Vec<Vec<u8>> = Vec::new();
        let mut i: usize = 0;
        assert(byte_vec_views(out@) =~= user_ids(self@.users).take(0));
        while i < self.users.len()
            invariant
                i <= self.users@.len(),
                byte_vec_views(out@) == user_ids(self@.users).take(i as int),
            decreases self.users@.len() - i,
        {
            let ghost prev = out@;
            let id = copy_bytes(&self.users[i].id);
            out.push(id);
            proof {
                assert(byte_vec_views(out@) =~= byte_vec_views(prev).push(id@));
                assert(id@ == user_ids(self@.users)[i as int]);
                assert(user_ids(self@.users).take(i as int).push(user_ids(self@.users)[i as int])
                    =~= user_ids(self@.users).take(i + 1));
            }
            i = i + 1;
        }
        assert(user_ids(self@.users).take(self.users@.len() as int) =~= user_ids(self@.users));
        out
    }

    /// A fresh deep copy.
    pub fn duplicate(&self) -> (r: SignedKeyDetails)
        ensures
            r@ == self@,
    {
        let mut out: Vec<SignedUser> = Vec::new();
        let mut i: usize = 0;
        assert(user_views(out@) =~= user_views(self.users@).take(0));
        while i < self.users.len()
            invariant
                i <= self.users@.len(),
                user_views(out@) == user_views(self.users@).take(i as int),
            decreases self.users@.len() - i,
        {
            let ghost prev = out@;
            let u = self.users[i].duplicate();
            out.push(u);
            proof {
                assert(user_views(out@) =~= user_views(prev).push(u@));
                assert(user_views(self.users@).take(i as int).push(
                    user_views(self.users@)[i as int],
                ) =~= user_views(self.users@).take(i + 1));
            }
            i = i + 1;
        }
        assert(user_views(self.users@).take(self.users@.len() as int) =~= user_views(self.users@));
        let r = SignedKeyDetails { users: out };
        assert(r@ =~= self@);
        r
    }

    /// Append the wire form of the bundle to `out`.
    pub fn to_writer(&self, out: &mut Vec<u8>)
        requires
            details_wf(self@),
        ensures
            final(out)@ == old(out)@ + details_bytes(self@),
    {
        let ghost users = self@.users;
        let mut i: usize = 0;
        assert(out@ =~= old(out)@ + concat_map(users.take(0), user_bytes_fn()));
        while i < self.users.len()
            invariant
                i <= self.users@.len(),
                users == self@.users,
                details_wf(self@),
                out@ == old(out)@ + concat_map(users.take(i as int), user_bytes_fn()),
            decreases self.users@.len() - i,
        {
            proof {
                lemma_concat_map_snoc(users.take(i as int), users[i as int], user_bytes_fn());
                assert(users.take(i as int).push(users[i as int]) =~= users.take(i + 1));
            }
            let u = &self.users[i];
            crate::wire::push_packet(out, 13, &u.id);
            push_signatures(out, &u.signatures);
            assert(out@ =~= old(out)@ + concat_map(users.take(i + 1), user_bytes_fn()));
            i = i + 1;
        }
        assert(users.take(users.len() as int) =~= users);
    }

    /// The byte count of the bundle's wire form.
    pub fn write_len(&self) -> (r: usize)
        requires
            details_wf(self@),
            details_bytes(self@).len() <= usize::MAX,
        ensures
            r == details_bytes(self@).len(),
    {
        let ghost users = self@.users;
        let mut sum: usize = 0;
        let mut i: usize = 0;
        assert(concat_map(users.take(0), user_bytes_fn()) =~= Seq::<u8>::empty());
        while i < self.users.len()
            invariant
                i <= self.users@.len(),
                users == self@.users,
                details_wf(self@),
                details_bytes(self@).len() <= usize::MAX,
                sum == concat_map(users.take(i as int), user_bytes_fn()).len(),
            decreases self.users@.len() - i,
        {
            proof {
                lemma_concat_map_snoc(users.take(i as int), users[i as int], user_bytes_fn());
                assert(users.take(i as int).push(users[i as int]) =~= users.take(i + 1));
                lemma_concat_map_prefix_len(users, i + 1, user_bytes_fn());
            }
            let u = &self.users[i];
            let ghost uv = users[i as int];
            let idw = crate::enc::fixed_encoding_len(u.id.len() as u32);
            let ghost id_packet_len = crate::wire::packet_bytes(13, uv.id).len();
            assert(id_packet_len == 1 + len_enc_width(uv.id.len()) + uv.id.len());
            assert(sigs_bytes(uv.sigs).len() <= user_bytes(uv).len());
            let slen = signatures_len(&u.signatures);
            sum = sum + 1 + idw + u.id.len() + slen;
            i = i + 1;
        }
        assert(users.take(users.len() as int) =~= users);
        sum
    }
}

} // verus!
