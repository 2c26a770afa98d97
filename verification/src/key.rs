//! Public key material: the fields of a public key packet (primary or
//! subkey), its wire body, its fingerprint, and the pass-through encryption
//! primitive of the model.

use vstd::prelude::*;

use crate::enc::{be16_spec, be32_spec, copy_bytes, push_be16, push_be32, push_bytes};
use crate::tag::{compute_tag, key_tag, tag_bytes, tag_state};
use crate::types::EskType;

verus! {

/// The ghost image of `KeyMaterial`.
pub ghost struct KeyMaterialV {
    pub version: u8,
    pub algorithm: u8,
    pub created_at: u32,
    pub expiration: Option<u16>,
    pub key_bytes: Seq<u8>,
}

/// Public key material: version, creation time (seconds since the epoch),
/// public key algorithm, the legacy validity period of version 2/3 keys,
/// and the raw algorithm-specific public parameters.
#[derive(Debug, Clone, PartialEq, Eq)]
pub struct KeyMaterial {
    pub version: u8,
    pub algorithm: u8,
    pub created_at: u32,
    pub expiration: Option<u16>,
    pub key_bytes: Vec<u8>,
}

impl View for KeyMaterial {
    type V = KeyMaterialV;

    open spec fn view(&self) -> KeyMaterialV {
        KeyMaterialV {
            version: self.version,
            algorithm: self.algorithm,
            created_at: self.created_at,
            expiration: self.expiration,
            key_bytes: self.key_bytes@,
        }
    }
}

/// Well-formed key material: the packet body fits the five-octet length
/// encoding, the widest the framing offers, and the legacy validity period
/// appears exactly on version 2/3 keys.
pub open spec fn key_wf(k: KeyMaterialV) -> bool {
    &&& key_body_len(k) <= u32::MAX
    &&& (k.version >= 4 ==> k.expiration is None)
    &&& (k.version < 4 ==> k.expiration is Some)
}

/// The wire body of a public key packet: version, creation time, the
/// validity period on version 2/3 keys, algorithm, then the raw public
/// parameters.
pub open spec fn key_body(k: KeyMaterialV) -> Seq<u8> {
    seq![k.version] + be32_spec(k.created_at) + (match k.expiration {
        Some(e) => be16_spec(e),
        None => Seq::<u8>::empty(),
    }) + seq![k.algorithm] + k.key_bytes
}

/// The byte count of the wire body.
pub open spec fn key_body_len(k: KeyMaterialV) -> nat {
    (6 + (if k.expiration is Some {
        2nat
    } else {
        0nat
    }) + k.key_bytes.len()) as nat
}

/// The body is exactly `key_body_len` bytes.
pub proof fn lemma_key_body_len(k: KeyMaterialV)
    ensures
        key_body(k).len() == key_body_len(k),
{
}

/// The fingerprint of key material: the eight-byte tag of its wire body
/// under its own public parameters. The key identifier of this model is the
/// whole fingerprint.
pub open spec fn fingerprint_spec(k: KeyMaterialV) -> Seq<u8> {
    key_tag(k.key_bytes, key_body(k))
}

impl KeyMaterial {
    /// Append the wire body of this key to `out`.
    pub fn push_body(&self, out: &mut Vec<u8>)
        ensures
            final(out)@ == old(out)@ + key_body(self@),
    {
        out.push(self.version);
        push_be32(out, self.created_at);
        match self.expiration {
            Some(e) => push_be16(out, e),
            None => {},
        }
        out.push(self.algorithm);
        push_bytes(out, &self.key_bytes);
        assert(out@ =~= old(out)@ + key_body(self@));
    }

    /// The wire body of this key.
    pub fn body_bytes(&self) -> (r: Vec<u8>)
        ensures
            r@ == key_body(self@),
    {
        let mut out: Vec<u8> = Vec::new();
        self.push_body(&mut out);
        out
    }

    /// The byte count of the wire body.
    pub fn body_len(&self) -> (r: usize)
        requires
            key_wf(self@),
        ensures
            r == key_body_len(self@),
    {
        let base: usize = match self.expiration {
            Some(_) => 8,
            None => 6,
        };
        base + self.key_bytes.len()
    }

    /// A fresh deep copy.
    pub fn duplicate(&self) -> (r: KeyMaterial)
        ensures
            r@ == self@,
    {
        KeyMaterial {
            version: self.version,
            algorithm: self.algorithm,
            created_at: self.created_at,
            expiration: self.expiration,
            key_bytes: copy_bytes(&self.key_bytes),
        }
    }

    /// The key version.
    pub fn version(&self) -> (r: u8)
        ensures
            r == self@.version,
    {
        self.version
    }

    /// The public key algorithm.
    pub fn algorithm(&self) -> (r: u8)
        ensures
            r == self@.algorithm,
    {
        self.algorithm
    }

    /// The creation time, in seconds since the epoch.
    pub fn created_at(&self) -> (r: u32)
        ensures
            r == self@.created_at,
    {
        self.created_at
    }

    /// The legacy validity period of version 2/3 keys, in days.
    pub fn expiration(&self) -> (r: Option<u16>)
        ensures
            r == self@.expiration,
    {
        self.expiration
    }

    /// The raw algorithm-specific public parameters.
    pub fn public_params(&self) -> (r: &Vec<u8>)
        ensures
            r@ == self@.key_bytes,
    {
        &self.key_bytes
    }

    /// The fingerprint of this key.
    pub fn fingerprint(&self) -> (r: Vec<u8>)
        requires
            key_wf(self@),
        ensures
            r@ == fingerprint_spec(self@),
    {
        let body = self.body_bytes();
        compute_tag(&self.key_bytes, &body)
    }

    /// The key identifier: in this model, the whole eight-byte fingerprint.
    pub fn key_id(&self) -> (r: Vec<u8>)
        requires
            key_wf(self@),
        ensures
            r@ == fingerprint_spec(self@),
    {
        self.fingerprint()
    }

    /// Whether `sig` is a valid signature by this key over `data`.
    pub fn verify_signature(&self, data: &Vec<u8>, sig: &Vec<u8>) -> (r: Result<
        (),
        crate::types::Error,
    >)
        requires
            key_wf(self@),
        ensures
            r is Ok <==> sig@ == key_tag(self@.key_bytes, data@),
    {
        if crate::tag::check_tag(&self.key_bytes, data, sig) {
            Ok(())
        } else {
            Err(crate::types::Error::SubkeyBindingSignature)
        }
    }

    /// Encrypt `plain` to this key: each plaintext byte is masked with the
    /// keystream derived from the key's public parameters and the caller's
    /// ephemeral seed. The caller supplies the seed so that the result is a
    /// total function of its arguments.
    pub fn encrypt(&self, seed: &Vec<u8>, plain: &Vec<u8>, typ: EskType) -> (r: PkeskBytes)
        requires
            key_wf(self@),
            seed@.len() + 4 <= u32::MAX,
            plain@.len() <= u32::MAX,
        ensures
            r.typ == typ,
            r.key_id@ == fingerprint_spec(self@),
            r.seed@ == seed@,
            r.body@.len() == plain@.len(),
            forall|i: int|
                0 <= i < plain@.len() ==> r.body@[i] == (plain@[i] ^ keystream_byte(
                    self@.key_bytes,
                    seed@,
                    i,
                )),
    {
        let key_id = self.fingerprint();
        let mut body: Vec<u8> = Vec::new();
        let mut i: usize = 0;
        let mut block: Vec<u8> = Vec::new();
        while i < plain.len()
            invariant
                key_wf(self@),
                seed@.len() + 4 <= u32::MAX,
                plain@.len() <= u32::MAX,
                i <= plain@.len(),
                body@.len() == i,
                forall|j: int|
                    0 <= j < i ==> body@[j] == (plain@[j] ^ keystream_byte(
                        self@.key_bytes,
                        seed@,
                        j,
                    )),
                i % 8 != 0 ==> block@ == key_tag(
                    self@.key_bytes,
                    seed@ + be32_spec((i / 8) as u32),
                ),
            decreases plain@.len() - i,
        {
            if i % 8 == 0 {
                let mut block_input = copy_bytes(seed);
                push_be32(&mut block_input, (i / 8) as u32);
                block = compute_tag(&self.key_bytes, &block_input);
            }
            assert(block@ == key_tag(self@.key_bytes, seed@ + be32_spec((i / 8) as u32)));
            assert(block@.len() == 8);
            body.push(plain[i] ^ block[i % 8]);
            i = i + 1;
        }
        PkeskBytes { typ, key_id, seed: copy_bytes(seed), body }
    }
}

/// Byte `i` of the keystream for a key and seed: byte `i % 8` of the tag of
/// `seed` followed by the block counter under the key.
pub open spec fn keystream_byte(key: Seq<u8>, seed: Seq<u8>, i: int) -> u8 {
    key_tag(key, seed + be32_spec((i / 8) as u32))[i % 8]
}

/// An encrypted session key: the target format, the recipient's key
/// identifier, the ephemeral seed, and the masked payload.
#[derive(Debug, Clone, PartialEq, Eq)]
pub struct PkeskBytes {
    pub typ: EskType,
    pub key_id: Vec<u8>,
    pub seed: Vec<u8>,
    pub body: Vec<u8>,
}

} // verus!
