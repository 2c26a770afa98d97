//! Grouping a parsed packet stream into transferable-key blocks, and the
//! parser that yields one certificate-or-error per block.
//!
//! The stream is a sequence of fallible typed packets, known to start at a
//! primary key packet. A block is a primary key, user-id groups (each a
//! user id followed by its signatures), then subkey groups (each a subkey
//! followed by its signatures). Anything else ends the block; a block that
//! does not start with a primary key yields an error element, never a
//! silent skip.

use vstd::prelude::*;

use crate::cert::{assemble, filter_subkey_fn, keep_subkey_fn, subkey_views, CertV,
    SignedPublicKey, SignedPublicSubKey, SubkeyV};
use crate::details::{sig_views, user_views, DetailsV, SignedKeyDetails, SignedUser, SignedUserV};
use crate::enc::copy_bytes;
use crate::key::{KeyMaterial, KeyMaterialV};
use crate::sig::{Signature, SignatureV};
use crate::types::Error;

verus! {

/// The ghost image of `Packet`.
pub ghost enum PacketV {
    PublicKey(KeyMaterialV),
    PublicSubkey(KeyMaterialV),
    UserId(Seq<u8>),
    Signature(SignatureV),
}

/// A parsed packet, as far as the grouping reads them.
#[derive(Debug, Clone, PartialEq, Eq)]
pub enum Packet {
    PublicKey(KeyMaterial),
    PublicSubkey(KeyMaterial),
    UserId(Vec<u8>),
    Signature(Signature),
}

impl View for Packet {
    type V = PacketV;

    open spec fn view(&self) -> PacketV {
        match self {
            Packet::PublicKey(k) => PacketV::PublicKey(k@),
            Packet::PublicSubkey(k) => PacketV::PublicSubkey(k@),
            Packet::UserId(id) => PacketV::UserId(id@),
            Packet::Signature(g) => PacketV::Signature(g@),
        }
    }
}

/// The ghost image of one stream item.
pub open spec fn item_view(r: Result<Packet, Error>) -> Result<PacketV, Error> {
    match r {
        Ok(p) => Ok(p@),
        Err(e) => Err(e),
    }
}

/// The ghost images of a packet stream.
pub open spec fn item_views(s: Seq<Result<Packet, Error>>) -> Seq<Result<PacketV, Error>> {
    s.map_values(|r: Result<Packet, Error>| item_view(r))
}

/// The run of signatures starting at `i`.
pub open spec fn sigs_at(s: Seq<Result<PacketV, Error>>, i: int) -> Seq<SignatureV>
    decreases s.len() - i,
        when 0 <= i <= s.len()
{
    if i < s.len() {
        match s[i] {
            Ok(PacketV::Signature(g)) => seq![g] + sigs_at(s, i + 1),
            _ => Seq::<SignatureV>::empty(),
        }
    } else {
        Seq::<SignatureV>::empty()
    }
}

/// A signature run never passes the end of the stream.
pub proof fn lemma_sigs_at_len(s: Seq<Result<PacketV, Error>>, i: int)
    requires
        0 <= i <= s.len(),
    ensures
        i + sigs_at(s, i).len() <= s.len(),
    decreases s.len() - i,
{
    if i < s.len() {
        match s[i] {
            Ok(PacketV::Signature(g)) => {
                lemma_sigs_at_len(s, i + 1);
            },
            _ => {},
        }
    }
}

/// The user-id groups starting at `i`: the identities collected, and the
/// position after the last one.
pub open spec fn users_at(s: Seq<Result<PacketV, Error>>, i: int) -> (Seq<SignedUserV>, int)
    decreases s.len() - i,
        when 0 <= i <= s.len()
        via users_at_dec
{
    if i < s.len() {
        match s[i] {
            Ok(PacketV::UserId(id)) => {
                let sigs = sigs_at(s, i + 1);
                let rest = users_at(s, i + 1 + sigs.len());
                (seq![SignedUserV { id, sigs }] + rest.0, rest.1)
            },
            _ => (Seq::<SignedUserV>::empty(), i),
        }
    } else {
        (Seq::<SignedUserV>::empty(), i)
    }
}

#[via_fn]
proof fn users_at_dec(s: Seq<Result<PacketV, Error>>, i: int) {
    if 0 <= i < s.len() {
        match s[i] {
            Ok(PacketV::UserId(id)) => {
                lemma_sigs_at_len(s, i + 1);
            },
            _ => {},
        }
    }
}

/// The user-id groups never pass the end of the stream.
pub proof fn lemma_users_at_len(s: Seq<Result<PacketV, Error>>, i: int)
    requires
        0 <= i <= s.len(),
    ensures
        i <= users_at(s, i).1 <= s.len(),
    decreases s.len() - i,
{
    if i < s.len() {
        match s[i] {
            Ok(PacketV::UserId(id)) => {
                lemma_sigs_at_len(s, i + 1);
                lemma_users_at_len(s, i + 1 + sigs_at(s, i + 1).len());
            },
            _ => {},
        }
    }
}

/// The subkey groups starting at `i`: the raw (unfiltered) subkeys, and
/// the position after the last one.
pub open spec fn subkeys_at(s: Seq<Result<PacketV, Error>>, i: int) -> (Seq<SubkeyV>, int)
    decreases s.len() - i,
        when 0 <= i <= s.len()
        via subkeys_at_dec
{
    if i < s.len() {
        match s[i] {
            Ok(PacketV::PublicSubkey(k)) => {
                let sigs = sigs_at(s, i + 1);
                let rest = subkeys_at(s, i + 1 + sigs.len());
                (seq![SubkeyV { key: k, sigs }] + rest.0, rest.1)
            },
            _ => (Seq::<SubkeyV>::empty(), i),
        }
    } else {
        (Seq::<SubkeyV>::empty(), i)
    }
}

#[via_fn]
proof fn subkeys_at_dec(s: Seq<Result<PacketV, Error>>, i: int) {
    if 0 <= i < s.len() {
        match s[i] {
            Ok(PacketV::PublicSubkey(k)) => {
                lemma_sigs_at_len(s, i + 1);
            },
            _ => {},
        }
    }
}

/// The subkey groups never pass the end of the stream.
pub proof fn lemma_subkeys_at_len(s: Seq<Result<PacketV, Error>>, i: int)
    requires
        0 <= i <= s.len(),
    ensures
        i <= subkeys_at(s, i).1 <= s.len(),
    decreases s.len() - i,
{
    if i < s.len() {
        match s[i] {
            Ok(PacketV::PublicSubkey(k)) => {
                lemma_sigs_at_len(s, i + 1);
                lemma_subkeys_at_len(s, i + 1 + sigs_at(s, i + 1).len());
            },
            _ => {},
        }
    }
}

/// The position of the next primary key packet at or after `i`, or the end
/// of the stream.
pub open spec fn next_key_at(s: Seq<Result<PacketV, Error>>, i: int) -> int
    decreases s.len() - i,
        when 0 <= i <= s.len()
{
    if i < s.len() {
        match s[i] {
            Ok(PacketV::PublicKey(k)) => i,
            _ => next_key_at(s, i + 1),
        }
    } else {
        i
    }
}

/// What one step of the parser yields on a stream: nothing at the end of
/// the stream; a passed-through error for an error element; an assembled
/// certificate for a block led by a primary key; a malformed-block error,
/// consuming up to the next primary key, for anything else. The second
/// component is how many items the step consumes.
pub open spec fn next_spec(s: Seq<Result<PacketV, Error>>) -> Option<(Result<CertV, Error>, int)> {
    if s.len() == 0 {
        None
    } else {
        match s[0] {
            Err(e) => Some((Err(e), 1)),
            Ok(PacketV::PublicKey(k)) => {
                let u = users_at(s, 1);
                let sk = subkeys_at(s, u.1);
                Some((Ok(assemble(k, DetailsV { users: u.0 }, sk.0)), sk.1))
            },
            Ok(_) => Some((Err(Error::MalformedBlock), next_key_at(s, 1))),
        }
    }
}

/// Parses transferable public keys out of a typed packet stream, one block
/// at a time.
#[derive(Debug, Clone, PartialEq, Eq)]
pub struct SignedPublicKeyParser {
    inner: Vec<Result<Packet, Error>>,
}

impl View for SignedPublicKeyParser {
    type V = Seq<Result<PacketV, Error>>;

    closed spec fn view(&self) -> Seq<Result<PacketV, Error>> {
        item_views(self.inner@)
    }
}

/// The ghost images of a list of raw subkey groups.
pub open spec fn raw_views(s: Seq<(KeyMaterial, Vec<Signature>)>) -> Seq<SubkeyV> {
    s.map_values(
        |p: (KeyMaterial, Vec<Signature>)| SubkeyV { key: p.0@, sigs: sig_views(p.1@) },
    )
}

impl SignedPublicKey {
    /// Parse transferable keys from a typed packet stream: hand the stream
    /// to a parser that yields one certificate-or-error per block.
    pub fn from_packets(packets: Vec<Result<Packet, Error>>) -> (r: SignedPublicKeyParser)
        ensures
            r@ == item_views(packets@),
    {
        SignedPublicKeyParser::from_packets(packets)
    }
}

impl SignedPublicKeyParser {
    /// Wrap a packet stream for parsing.
    pub fn from_packets(packets: Vec<Result<Packet, Error>>) -> (r: SignedPublicKeyParser)
        ensures
            r@ == item_views(packets@),
    {
        SignedPublicKeyParser { inner: packets }
    }

    /// Give back the unconsumed remainder of the stream.
    pub fn into_inner(self) -> (r: Vec<Result<Packet, Error>>)
        ensures
            item_views(r@) == self@,
    {
        self.inner
    }

    /// Drop the first `k` items of the stream.
    fn consume(&mut self, k: usize)
        requires
            k <= old(self).inner@.len(),
        ensures
            final(self)@ == old(self)@.skip(k as int),
    {
        let tail = self.inner.split_off(k);
        self.inner = tail;
        assert(item_views(self.inner@) =~= item_views(old(self).inner@).skip(k as int));
    }

    /// Parse the next transferable-key block, consuming its packets: the
    /// end of the stream yields nothing; an error element or a block not
    /// led by a primary key yields an error; otherwise the block's packets
    /// are grouped and assembled into a certificate.
    pub fn next(&mut self) -> (r: Option<Result<SignedPublicKey, Error>>)
        ensures
            (match next_spec(old(self)@) {
                None => r is None && final(self)@ == old(self)@,
                Some((res, consumed)) => {
                    &&& final(self)@ == old(self)@.skip(consumed)
                    &&& (match (r, res) {
                        (Some(Ok(c)), Ok(cv)) => c@ == cv,
                        (Some(Err(e)), Err(ev)) => e == ev,
                        _ => false,
                    })
                },
            }),
    {
        let ghost s = self@;
        let n = self.inner.len();
        if n == 0 {
            return None;
        }
        let primary: KeyMaterial = match &self.inner[0] {
            Err(e) => {
                let e2 = *e;
                self.consume(1);
                return Some(Err(e2));
            },
            Ok(Packet::PublicKey(k)) => k.duplicate(),
            Ok(_) => {
                let mut j: usize = 1;
                assert(next_key_at(s, 1) == next_key_at(s, j as int));
                while j < n && !matches!(&self.inner[j], Ok(Packet::PublicKey(_)))
                    invariant
                        1 <= j <= n,
                        n == self.inner@.len(),
                        s == self@,
                        next_key_at(s, 1) == next_key_at(s, j as int),
                    decreases n - j,
                {
                    assert(s[j as int] == item_view(self.inner@[j as int]));
                    j = j + 1;
                }
                if j < n {
                    assert(s[j as int] == item_view(self.inner@[j as int]));
                }
                assert(next_key_at(s, 1) == j);
                self.consume(j);
                return Some(Err(Error::MalformedBlock));
            },
        };
        assert(s[0] == item_view(self.inner@[0]));
        let mut idx: usize = 1;
        let mut users: Vec<SignedUser> = Vec::new();
        assert(user_views(users@) + users_at(s, 1).0 =~= users_at(s, 1).0);
        while idx < n && matches!(&self.inner[idx], Ok(Packet::UserId(_)))
            invariant
                1 <= idx <= n,
                n == self.inner@.len(),
                s == self@,
                users_at(s, 1).0 == user_views(users@) + users_at(s, idx as int).0,
                users_at(s, 1).1 == users_at(s, idx as int).1,
            decreases n - idx,
        {
            assert(s[idx as int] == item_view(self.inner@[idx as int]));
            let id: Vec<u8> = match &self.inner[idx] {
                Ok(Packet::UserId(u)) => copy_bytes(u),
                _ => {
                    proof {
                        assert(false);
                    }
                    Vec::new()
                },
            };
            let ghost user_start = idx as int;
            idx = idx + 1;
            let sigs = self.collect_sigs(&mut idx, Ghost(s), Ghost(n as int));
            let ghost prev_users = users@;
            users.push(SignedUser { id, signatures: sigs });
            proof {
                assert(user_views(users@) =~= user_views(prev_users).push(
                    SignedUserV { id: id@, sigs: sigs_at(s, user_start + 1) },
                ));
                assert(users_at(s, user_start).0 == seq![
                    SignedUserV { id: id@, sigs: sigs_at(s, user_start + 1) },
                ] + users_at(s, idx as int).0);
                assert(users_at(s, 1).0 =~= user_views(users@) + users_at(s, idx as int).0);
            }
        }
        proof {
            if idx < n {
                assert(s[idx as int] == item_view(self.inner@[idx as int]));
            }
            assert(users_at(s, idx as int).0 =~= Seq::<SignedUserV>::empty());
            assert(users_at(s, 1).0 =~= user_views(users@));
            assert(users_at(s, 1).1 == idx as int);
        }
        let mut raws: Vec<(KeyMaterial, Vec<Signature>)> = Vec::new();
        let ghost sub_start = idx as int;
        assert(raw_views(raws@) + subkeys_at(s, sub_start).0 =~= subkeys_at(s, sub_start).0);
        while idx < n && matches!(&self.inner[idx], Ok(Packet::PublicSubkey(_)))
            invariant
                1 <= sub_start <= idx <= n,
                n == self.inner@.len(),
                s == self@,
                subkeys_at(s, sub_start).0 == raw_views(raws@) + subkeys_at(s, idx as int).0,
                subkeys_at(s, sub_start).1 == subkeys_at(s, idx as int).1,
            decreases n - idx,
        {
            assert(s[idx as int] == item_view(self.inner@[idx as int]));
            let key: KeyMaterial = match &self.inner[idx] {
                Ok(Packet::PublicSubkey(k)) => k.duplicate(),
                _ => {
                    proof {
                        assert(false);
                    }
                    KeyMaterial {
                        version: 0,
                        algorithm: 0,
                        created_at: 0,
                        expiration: None,
                        key_bytes: Vec::new(),
                    }
                },
            };
            let ghost k_start = idx as int;
            idx = idx + 1;
            let sigs = self.collect_sigs(&mut idx, Ghost(s), Ghost(n as int));
            let ghost prev_raws = raws@;
            raws.push((key, sigs));
            proof {
                assert(raw_views(raws@) =~= raw_views(prev_raws).push(
                    SubkeyV { key: key@, sigs: sigs_at(s, k_start + 1) },
                ));
                assert(subkeys_at(s, k_start).0 == seq![
                    SubkeyV { key: key@, sigs: sigs_at(s, k_start + 1) },
                ] + subkeys_at(s, idx as int).0);
                assert(subkeys_at(s, sub_start).0 =~= raw_views(raws@) + subkeys_at(
                    s,
                    idx as int,
                ).0);
            }
        }
        proof {
            if idx < n {
                assert(s[idx as int] == item_view(self.inner@[idx as int]));
            }
            assert(subkeys_at(s, idx as int).0 =~= Seq::<SubkeyV>::empty());
            assert(subkeys_at(s, sub_start).0 =~= raw_views(raws@));
            assert(subkeys_at(s, sub_start).1 == idx as int);
        }
        let mut subkeys: Vec<SignedPublicSubKey> = Vec::new();
        let mut m: usize = 0;
        assert(subkey_views(subkeys@) =~= raw_views(raws@).map_values(filter_subkey_fn()).take(0));
        while m < raws.len()
            invariant
                m <= raws@.len(),
                subkey_views(subkeys@) == raw_views(raws@).map_values(filter_subkey_fn()).take(
                    m as int,
                ),
            decreases raws@.len() - m,
        {
            let ghost prev = subkeys@;
            let p = &raws[m];
            let sk = SignedPublicSubKey::new(
                p.0.duplicate(),
                crate::details::copy_signatures(&p.1),
            );
            subkeys.push(sk);
            proof {
                assert(subkey_views(subkeys@) =~= subkey_views(prev).push(sk@));
                assert(sk@ == raw_views(raws@).map_values(filter_subkey_fn())[m as int]);
                assert(raw_views(raws@).map_values(filter_subkey_fn()).take(m as int).push(
                    raw_views(raws@).map_values(filter_subkey_fn())[m as int],
                ) =~= raw_views(raws@).map_values(filter_subkey_fn()).take(m + 1));
            }
            m = m + 1;
        }
        assert(raw_views(raws@).map_values(filter_subkey_fn()).take(raws@.len() as int)
            =~= raw_views(raws@).map_values(filter_subkey_fn()));
        let cert = SignedPublicKey::new(primary, SignedKeyDetails { users }, subkeys);
        proof {
            lemma_users_at_len(s, 1);
            lemma_subkeys_at_len(s, users_at(s, 1).1);
            assert(cert@.subkeys =~= assemble(
                s[0].unwrap()->PublicKey_0,
                DetailsV { users: users_at(s, 1).0 },
                subkeys_at(s, users_at(s, 1).1).0,
            ).subkeys);
        }
        self.consume(idx);
        Some(Ok(cert))
    }

    /// Collect the run of signatures starting at `*idx`, advancing it.
    fn collect_sigs(&self, idx: &mut usize, Ghost(s): Ghost<Seq<Result<PacketV, Error>>>, Ghost(
        n,
    ): Ghost<int>) -> (r: Vec<Signature>)
        requires
            s == self@,
            n == self.inner@.len(),
            0 <= *old(idx) <= n,
        ensures
            sig_views(r@) == sigs_at(s, *old(idx) as int),
            *final(idx) == *old(idx) + r@.len(),
            *final(idx) <= n,
    {
        let mut sigs: Vec<Signature> = Vec::new();
        let ghost start = *idx as int;
        assert(sig_views(sigs@) + sigs_at(s, start) =~= sigs_at(s, start));
        while *idx < self.inner.len() && matches!(&self.inner[*idx], Ok(Packet::Signature(_)))
            invariant
                s == self@,
                n == self.inner@.len(),
                0 <= start <= *idx <= n,
                *idx == start + sigs@.len(),
                sigs_at(s, start) == sig_views(sigs@) + sigs_at(s, *idx as int),
            decreases n - *idx,
        {
            assert(s[*idx as int] == item_view(self.inner@[*idx as int]));
            let g: Signature = match &self.inner[*idx] {
                Ok(Packet::Signature(g)) => g.duplicate(),
                _ => {
                    proof {
                        assert(false);
                    }
                    Signature {
                        typ: crate::types::SignatureType::Other(0),
                        created_at: 0,
                        hashed: Vec::new(),
                        unhashed: Vec::new(),
                        sig_bytes: Vec::new(),
                    }
                },
            };
            let ghost prev = sigs@;
            sigs.push(g);
            proof {
                assert(sig_views(sigs@) =~= sig_views(prev).push(g@));
                assert(sigs_at(s, start) =~= sig_views(sigs@) + sigs_at(s, *idx + 1));
            }
            *idx = *idx + 1;
        }
        proof {
            if *idx < self.inner.len() {
                assert(s[*idx as int] == item_view(self.inner@[*idx as int]));
            }
            assert(sigs_at(s, *idx as int) =~= Seq::<SignatureV>::empty());
            assert(sigs_at(s, start) =~= sig_views(sigs@));
        }
        sigs
    }
}

} // verus!

verus! {

/// The packet items of a signature list.
pub open spec fn sig_items(gs: Seq<SignatureV>) -> Seq<Result<PacketV, Error>> {
    gs.map_values(|g: SignatureV| Ok::<PacketV, Error>(PacketV::Signature(g)))
}

/// The packet items of one identity binding: its user id, then its
/// signatures.
pub open spec fn user_items(u: SignedUserV) -> Seq<Result<PacketV, Error>> {
    seq![Ok::<PacketV, Error>(PacketV::UserId(u.id))] + sig_items(u.sigs)
}

/// The packet items of a list of identity bindings.
pub open spec fn users_items(us: Seq<SignedUserV>) -> Seq<Result<PacketV, Error>>
    decreases us.len(),
{
    if us.len() == 0 {
        Seq::<Result<PacketV, Error>>::empty()
    } else {
        user_items(us[0]) + users_items(us.skip(1))
    }
}

/// The packet items of one signed subkey: its key, then its signatures.
pub open spec fn subkey_items(sk: SubkeyV) -> Seq<Result<PacketV, Error>> {
    seq![Ok::<PacketV, Error>(PacketV::PublicSubkey(sk.key))] + sig_items(sk.sigs)
}

/// The packet items of a list of signed subkeys.
pub open spec fn subkeys_items(sks: Seq<SubkeyV>) -> Seq<Result<PacketV, Error>>
    decreases sks.len(),
{
    if sks.len() == 0 {
        Seq::<Result<PacketV, Error>>::empty()
    } else {
        subkey_items(sks[0]) + subkeys_items(sks.skip(1))
    }
}

/// The packet items of a whole certificate, in canonical order.
pub open spec fn cert_packets(c: CertV) -> Seq<Result<PacketV, Error>> {
    seq![Ok::<PacketV, Error>(PacketV::PublicKey(c.primary))] + users_items(c.details.users)
        + subkeys_items(c.subkeys)
}

/// A signature run reads the same wherever the stream is cut.
proof fn lemma_sigs_at_shift(s: Seq<Result<PacketV, Error>>, i: int)
    requires
        0 <= i <= s.len(),
    ensures
        sigs_at(s, i) == sigs_at(s.skip(i), 0),
    decreases s.len() - i,
{
    if i < s.len() {
        assert(s.skip(i)[0] == s[i]);
        match s[i] {
            Ok(PacketV::Signature(g)) => {
                lemma_sigs_at_shift(s, i + 1);
                lemma_sigs_at_shift(s.skip(i), 1);
                assert(s.skip(i).skip(1) =~= s.skip(i + 1));
            },
            _ => {},
        }
    } else {
        assert(s.skip(i) =~= Seq::<Result<PacketV, Error>>::empty());
    }
}

/// A user-id phase reads the same wherever the stream is cut.
proof fn lemma_users_at_shift(s: Seq<Result<PacketV, Error>>, i: int)
    requires
        0 <= i <= s.len(),
    ensures
        users_at(s, i).0 == users_at(s.skip(i), 0).0,
        users_at(s, i).1 == i + users_at(s.skip(i), 0).1,
    decreases s.len() - i,
{
    if i < s.len() {
        assert(s.skip(i)[0] == s[i]);
        match s[i] {
            Ok(PacketV::UserId(id)) => {
                lemma_sigs_at_len(s, i + 1);
                lemma_sigs_at_shift(s, i + 1);
                lemma_sigs_at_shift(s.skip(i), 1);
                assert(s.skip(i).skip(1) =~= s.skip(i + 1));
                let gs = sigs_at(s, i + 1);
                lemma_users_at_shift(s, i + 1 + gs.len() as int);
                lemma_users_at_shift(s.skip(i), 1 + gs.len() as int);
                assert(s.skip(i).skip(1 + gs.len() as int) =~= s.skip(i + 1 + gs.len() as int));
            },
            _ => {},
        }
    } else {
        assert(s.skip(i) =~= Seq::<Result<PacketV, Error>>::empty());
    }
}

/// A subkey phase reads the same wherever the stream is cut.
proof fn lemma_subkeys_at_shift(s: Seq<Result<PacketV, Error>>, i: int)
    requires
        0 <= i <= s.len(),
    ensures
        subkeys_at(s, i).0 == subkeys_at(s.skip(i), 0).0,
        subkeys_at(s, i).1 == i + subkeys_at(s.skip(i), 0).1,
    decreases s.len() - i,
{
    if i < s.len() {
        assert(s.skip(i)[0] == s[i]);
        match s[i] {
            Ok(PacketV::PublicSubkey(k)) => {
                lemma_sigs_at_len(s, i + 1);
                lemma_sigs_at_shift(s, i + 1);
                lemma_sigs_at_shift(s.skip(i), 1);
                assert(s.skip(i).skip(1) =~= s.skip(i + 1));
                let gs = sigs_at(s, i + 1);
                lemma_subkeys_at_shift(s, i + 1 + gs.len() as int);
                lemma_subkeys_at_shift(s.skip(i), 1 + gs.len() as int);
                assert(s.skip(i).skip(1 + gs.len() as int) =~= s.skip(i + 1 + gs.len() as int));
            },
            _ => {},
        }
    } else {
        assert(s.skip(i) =~= Seq::<Result<PacketV, Error>>::empty());
    }
}

/// Reading a signature run from its own packet items gives the run back,
/// whatever trails it, as long as that is not another signature.
proof fn lemma_sigs_at_head(gs: Seq<SignatureV>, rest: Seq<Result<PacketV, Error>>)
    requires
        rest.len() == 0 || !(rest[0] matches Ok(PacketV::Signature(_))),
    ensures
        sigs_at(sig_items(gs) + rest, 0) == gs,
    decreases gs.len(),
{
    let s2 = sig_items(gs) + rest;
    if gs.len() == 0 {
        assert(s2 =~= rest);
    } else {
        assert(s2[0] == Ok::<PacketV, Error>(PacketV::Signature(gs[0])));
        lemma_sigs_at_shift(s2, 1);
        assert(s2.skip(1) =~= sig_items(gs.skip(1)) + rest);
        lemma_sigs_at_head(gs.skip(1), rest);
        assert(sigs_at(s2, 0) =~= gs);
    }
}

/// Reading the user-id phase from its own packet items gives the
/// identities back, whatever trails them, as long as that is neither a
/// user id nor a signature.
proof fn lemma_users_at_head(us: Seq<SignedUserV>, rest: Seq<Result<PacketV, Error>>)
    requires
        rest.len() == 0 || !(rest[0] matches Ok(PacketV::UserId(_))) && !(rest[0] matches Ok(
            PacketV::Signature(_),
        )),
    ensures
        users_at(users_items(us) + rest, 0).0 == us,
        users_at(users_items(us) + rest, 0).1 == users_items(us).len(),
    decreases us.len(),
{
    let s2 = users_items(us) + rest;
    if us.len() == 0 {
        assert(s2 =~= rest);
    } else {
        let u = us[0];
        assert(s2[0] == Ok::<PacketV, Error>(PacketV::UserId(u.id)));
        let tail = users_items(us.skip(1)) + rest;
        assert(s2.skip(1) =~= sig_items(u.sigs) + tail);
        if us.skip(1).len() == 0 {
            assert(tail =~= rest);
        } else {
            assert(tail[0] == Ok::<PacketV, Error>(PacketV::UserId(us.skip(1)[0].id)));
        }
        lemma_sigs_at_head(u.sigs, tail);
        lemma_sigs_at_shift(s2, 1);
        assert(sigs_at(s2, 1) == u.sigs);
        lemma_users_at_head(us.skip(1), rest);
        lemma_users_at_shift(s2, 1 + u.sigs.len() as int);
        assert(s2.skip(1 + u.sigs.len() as int) =~= tail);
        assert(users_at(s2, 0).0 =~= us);
    }
}

/// Reading the subkey phase from its own packet items gives the subkeys
/// back, whatever trails them, as long as that is neither a subkey nor a
/// signature.
proof fn lemma_subkeys_at_head(sks: Seq<SubkeyV>, rest: Seq<Result<PacketV, Error>>)
    requires
        rest.len() == 0 || !(rest[0] matches Ok(PacketV::PublicSubkey(_))) && !(rest[0] matches Ok(
            PacketV::Signature(_),
        )),
    ensures
        subkeys_at(subkeys_items(sks) + rest, 0).0 == sks,
        subkeys_at(subkeys_items(sks) + rest, 0).1 == subkeys_items(sks).len(),
    decreases sks.len(),
{
    let s2 = subkeys_items(sks) + rest;
    if sks.len() == 0 {
        assert(s2 =~= rest);
    } else {
        let sk = sks[0];
        assert(s2[0] == Ok::<PacketV, Error>(PacketV::PublicSubkey(sk.key)));
        let tail = subkeys_items(sks.skip(1)) + rest;
        assert(s2.skip(1) =~= sig_items(sk.sigs) + tail);
        if sks.skip(1).len() == 0 {
            assert(tail =~= rest);
        } else {
            assert(tail[0] == Ok::<PacketV, Error>(PacketV::PublicSubkey(sks.skip(1)[0].key)));
        }
        lemma_sigs_at_head(sk.sigs, tail);
        lemma_sigs_at_shift(s2, 1);
        assert(sigs_at(s2, 1) == sk.sigs);
        lemma_subkeys_at_head(sks.skip(1), rest);
        lemma_subkeys_at_shift(s2, 1 + sk.sigs.len() as int);
        assert(s2.skip(1 + sk.sigs.len() as int) =~= tail);
        assert(subkeys_at(s2, 0).0 =~= sks);
    }
}

/// Filtering changes nothing when every element is kept.
proof fn lemma_filter_all<A>(s: Seq<A>, pred: spec_fn(A) -> bool)
    requires
        forall|k: int| 0 <= k < s.len() ==> pred(#[trigger] s[k]),
    ensures
        s.filter(pred) == s,
    decreases s.len(),
{
    reveal(Seq::filter);
    if s.len() > 0 {
        let rest = s.drop_last();
        assert(forall|k: int| 0 <= k < rest.len() ==> pred(#[trigger] rest[k]));
        lemma_filter_all(rest, pred);
        assert(s.filter(pred) =~= s);
    }
}

/// Round trip: rendering an assembled certificate as its packet sequence
/// and parsing that sequence back yields the very same certificate, with
/// the whole sequence consumed. It can fail only on a certificate that
/// assembly never produces — one holding a subkey without signatures, or a
/// trailing signature of a foreign type.
pub proof fn lemma_round_trip(c: CertV)
    requires
        crate::cert::assembled_shape(c),
    ensures
        next_spec(cert_packets(c)) == Some(
            (Ok::<CertV, Error>(c), cert_packets(c).len() as int),
        ),
{
    let s = cert_packets(c);
    let urest = subkeys_items(c.subkeys);
    assert(s[0] == Ok::<PacketV, Error>(PacketV::PublicKey(c.primary)));
    if c.subkeys.len() > 0 {
        assert(urest[0] == Ok::<PacketV, Error>(PacketV::PublicSubkey(c.subkeys[0].key)));
    }
    lemma_users_at_head(c.details.users, urest);
    lemma_users_at_shift(s, 1);
    assert(s.skip(1) =~= users_items(c.details.users) + urest);
    let j = users_at(s, 1).1;
    assert(j == 1 + users_items(c.details.users).len());
    lemma_subkeys_at_head(c.subkeys, Seq::<Result<PacketV, Error>>::empty());
    lemma_subkeys_at_shift(s, j);
    assert(s.skip(j) =~= subkeys_items(c.subkeys) + Seq::<Result<PacketV, Error>>::empty());
    assert(subkeys_at(s, j).0 == c.subkeys);
    assert(subkeys_at(s, j).1 == s.len());
    let a = assemble(c.primary, DetailsV { users: users_at(s, 1).0 }, subkeys_at(s, j).0);
    assert forall|k: int| 0 <= k < c.subkeys.len() implies filter_subkey_fn()(
        #[trigger] c.subkeys[k],
    ) == c.subkeys[k] by {
        lemma_filter_all(c.subkeys[k].sigs, crate::cert::keep_sig_fn());
    }
    assert(c.subkeys.map_values(filter_subkey_fn()) =~= c.subkeys);
    lemma_filter_all(c.subkeys, keep_subkey_fn());
    assert(a.subkeys == c.subkeys);
    assert(a == c);
}

} // verus!

verus! {

/// Appending an identity appends its packet items.
proof fn lemma_users_items_snoc(us: Seq<SignedUserV>, u: SignedUserV)
    ensures
        users_items(us.push(u)) == users_items(us) + user_items(u),
    decreases us.len(),
{
    if us.len() == 0 {
        assert(us.push(u)[0] == u);
        assert(us.push(u).skip(1) =~= Seq::<SignedUserV>::empty());
        assert(users_items(us.push(u)) == user_items(u) + users_items(
            Seq::<SignedUserV>::empty(),
        ));
        assert(users_items(Seq::<SignedUserV>::empty())
            == Seq::<Result<PacketV, Error>>::empty());
        assert(users_items(us) == Seq::<Result<PacketV, Error>>::empty());
        assert(users_items(us.push(u)) =~= users_items(us) + user_items(u));
    } else {
        assert(us.push(u)[0] == us[0]);
        assert(us.push(u).skip(1) =~= us.skip(1).push(u));
        lemma_users_items_snoc(us.skip(1), u);
        assert(users_items(us.push(u)) =~= users_items(us) + user_items(u));
    }
}

/// Appending a subkey appends its packet items.
proof fn lemma_subkeys_items_snoc(sks: Seq<SubkeyV>, sk: SubkeyV)
    ensures
        subkeys_items(sks.push(sk)) == subkeys_items(sks) + subkey_items(sk),
    decreases sks.len(),
{
    if sks.len() == 0 {
        assert(sks.push(sk)[0] == sk);
        assert(sks.push(sk).skip(1) =~= Seq::<SubkeyV>::empty());
        assert(subkeys_items(sks.push(sk)) == subkey_items(sk) + subkeys_items(
            Seq::<SubkeyV>::empty(),
        ));
        assert(subkeys_items(Seq::<SubkeyV>::empty())
            == Seq::<Result<PacketV, Error>>::empty());
        assert(subkeys_items(sks) == Seq::<Result<PacketV, Error>>::empty());
        assert(subkeys_items(sks.push(sk)) =~= subkeys_items(sks) + subkey_items(sk));
    } else {
        assert(sks.push(sk)[0] == sks[0]);
        assert(sks.push(sk).skip(1) =~= sks.skip(1).push(sk));
        lemma_subkeys_items_snoc(sks.skip(1), sk);
        assert(subkeys_items(sks.push(sk)) =~= subkeys_items(sks) + subkey_items(sk));
    }
}

/// Append the packet items of one signature list to `out`.
fn push_sig_items(out: &mut Vec<Result<Packet, Error>>, sigs: &Vec<Signature>)
    ensures
        item_views(final(out)@) == item_views(old(out)@) + sig_items(sig_views(sigs@)),
{
    let mut j: usize = 0;
    assert(item_views(out@) =~= item_views(old(out)@) + sig_items(sig_views(sigs@).take(0)));
    while j < sigs.len()
        invariant
            j <= sigs@.len(),
            item_views(out@) == item_views(old(out)@) + sig_items(sig_views(sigs@).take(j as int)),
        decreases sigs@.len() - j,
    {
        let ghost prev = out@;
        let g = sigs[j].duplicate();
        out.push(Ok(Packet::Signature(g)));
        proof {
            assert(item_views(out@) =~= item_views(prev).push(
                Ok::<PacketV, Error>(PacketV::Signature(sig_views(sigs@)[j as int])),
            ));
            assert(sig_items(sig_views(sigs@).take(j + 1)) =~= sig_items(
                sig_views(sigs@).take(j as int),
            ).push(Ok::<PacketV, Error>(PacketV::Signature(sig_views(sigs@)[j as int]))));
        }
        j = j + 1;
    }
    assert(sig_views(sigs@).take(sigs@.len() as int) =~= sig_views(sigs@));
}

impl SignedPublicKey {
    /// The certificate rendered as its packet sequence, in canonical order:
    /// the primary key, each identity with its signatures, then each subkey
    /// with its signatures. Parsing this sequence back yields the same
    /// certificate.
    pub fn to_packets(&self) -> (r: Vec<Result<Packet, Error>>)
        ensures
            item_views(r@) == cert_packets(self@),
    {
        let mut out: Vec<Result<Packet, Error>> = Vec::new();
        out.push(Ok(Packet::PublicKey(self.primary_key.duplicate())));
        let ghost head = seq![Ok::<PacketV, Error>(PacketV::PublicKey(self@.primary))];
        assert(item_views(out@) =~= head);
        let ghost uviews = self@.details.users;
        let mut i: usize = 0;
        assert(users_items(uviews.take(0)) =~= Seq::<Result<PacketV, Error>>::empty());
        assert(item_views(out@) =~= head + users_items(uviews.take(0)));
        while i < self.details.users.len()
            invariant
                i <= self.details.users@.len(),
                uviews == self@.details.users,
                item_views(out@) == head + users_items(uviews.take(i as int)),
            decreases self.details.users@.len() - i,
        {
            let u = &self.details.users[i];
            let ghost before = out@;
            out.push(Ok(Packet::UserId(copy_bytes(&u.id))));
            proof {
                assert(item_views(out@) =~= item_views(before).push(
                    Ok::<PacketV, Error>(PacketV::UserId(uviews[i as int].id)),
                ));
            }
            push_sig_items(&mut out, &u.signatures);
            proof {
                lemma_users_items_snoc(uviews.take(i as int), uviews[i as int]);
                assert(uviews.take(i as int).push(uviews[i as int]) =~= uviews.take(i + 1));
                assert(item_views(out@) =~= head + users_items(uviews.take(i + 1)));
            }
            i = i + 1;
        }
        assert(uviews.take(uviews.len() as int) =~= uviews);
        let ghost mid = head + users_items(uviews);
        let ghost skviews = self@.subkeys;
        let mut m: usize = 0;
        assert(subkeys_items(skviews.take(0)) =~= Seq::<Result<PacketV, Error>>::empty());
        assert(item_views(out@) =~= mid + subkeys_items(skviews.take(0)));
        while m < self.public_subkeys.len()
            invariant
                m <= self.public_subkeys@.len(),
                skviews == self@.subkeys,
                item_views(out@) == mid + subkeys_items(skviews.take(m as int)),
            decreases self.public_subkeys@.len() - m,
        {
            let sk = &self.public_subkeys[m];
            let ghost before = out@;
            out.push(Ok(Packet::PublicSubkey(sk.key.duplicate())));
            proof {
                assert(item_views(out@) =~= item_views(before).push(
                    Ok::<PacketV, Error>(PacketV::PublicSubkey(skviews[m as int].key)),
                ));
            }
            push_sig_items(&mut out, &sk.signatures);
            proof {
                lemma_subkeys_items_snoc(skviews.take(m as int), skviews[m as int]);
                assert(skviews.take(m as int).push(skviews[m as int]) =~= skviews.take(m + 1));
                assert(item_views(out@) =~= mid + subkeys_items(skviews.take(m + 1)));
            }
            m = m + 1;
        }
        assert(skviews.take(skviews.len() as int) =~= skviews);
        assert(item_views(out@) =~= cert_packets(self@));
        out
    }
}

} // verus!
