use pgp_cert::armor::{ArmorHeader, ArmorOptions, BlockType};
use pgp_cert::cert::{PublicKey, SignedPublicKey, SignedPublicSubKey};
use pgp_cert::details::{SignedKeyDetails, SignedUser};
use pgp_cert::enc::push_be32;
use pgp_cert::key::KeyMaterial;
use pgp_cert::parse::{Packet, SignedPublicKeyParser};
use pgp_cert::sig::{EmbeddedSig, Signature, Subpacket};
use pgp_cert::tag::compute_tag;
use pgp_cert::types::{AssemblyNote, Error, EskType, SignatureType};

fn primary_key() -> KeyMaterial {
    KeyMaterial {
        version: 4,
        algorithm: 22,
        created_at: 1_000_000,
        expiration: None,
        key_bytes: vec![1, 2, 3, 4, 5, 6, 7, 8],
    }
}

fn subkey_material(tag: u8) -> KeyMaterial {
    KeyMaterial {
        version: 4,
        algorithm: 18,
        created_at: 2_000_000,
        expiration: None,
        key_bytes: vec![9, 10, 11, tag],
    }
}

/// The signed part of a signature: type code, creation time, hashed area.
fn trailer_bytes(sig: &Signature) -> Vec<u8> {
    let mut out = Vec::new();
    sig.push_trailer(&mut out);
    out
}

/// A forward subkey-binding signature by `primary` over (primary, sub).
fn forward_sig(primary: &KeyMaterial, sub: &KeyMaterial, hashed: Vec<Subpacket>) -> Signature {
    let mut sig = Signature {
        typ: SignatureType::SubkeyBinding,
        created_at: 3_000_000,
        hashed,
        unhashed: Vec::new(),
        sig_bytes: Vec::new(),
    };
    let mut payload = primary.body_bytes();
    payload.extend_from_slice(&sub.body_bytes());
    payload.extend_from_slice(&trailer_bytes(&sig));
    sig.sig_bytes = compute_tag(&primary.key_bytes, &payload);
    sig
}

/// A reverse primary-key-binding signature by `sub` over (sub, primary).
fn reverse_sig(primary: &KeyMaterial, sub: &KeyMaterial) -> EmbeddedSig {
    let created_at = 3_500_000;
    let mut payload = primary.body_bytes();
    payload.extend_from_slice(&sub.body_bytes());
    payload.push(0x19);
    push_be32(&mut payload, created_at);
    EmbeddedSig {
        typ: SignatureType::PrimaryKeyBinding,
        created_at,
        sig_bytes: compute_tag(&sub.key_bytes, &payload),
    }
}

/// An identity self-signature by `primary` over its user id.
fn user_sig(primary: &KeyMaterial, id: &[u8], hashed: Vec<Subpacket>) -> Signature {
    let mut sig = Signature {
        typ: SignatureType::Certification,
        created_at: 1_500_000,
        hashed,
        unhashed: Vec::new(),
        sig_bytes: Vec::new(),
    };
    let mut payload = primary.body_bytes();
    payload.extend_from_slice(id);
    payload.extend_from_slice(&trailer_bytes(&sig));
    sig.sig_bytes = compute_tag(&primary.key_bytes, &payload);
    sig
}

fn details_for(primary: &KeyMaterial, hashed: Vec<Subpacket>) -> SignedKeyDetails {
    let id = b"alice <alice@example.org>".to_vec();
    let sig = user_sig(primary, &id, hashed);
    SignedKeyDetails {
        users: vec![SignedUser {
            id,
            signatures: vec![sig],
        }],
    }
}

/// A valid certificate with one identity and `n` encryption subkeys.
fn valid_cert(n: usize) -> SignedPublicKey {
    let primary = primary_key();
    let details = details_for(&primary, Vec::new());
    let mut subkeys = Vec::new();
    for t in 0..n {
        let sub = subkey_material(t as u8);
        let sig = forward_sig(&primary, &sub, vec![Subpacket::KeyFlags(0x0C)]);
        subkeys.push(SignedPublicSubKey::new(sub, vec![sig]));
    }
    SignedPublicKey::new(primary, details, subkeys)
}

#[test]
fn assembly_drops_unsigned_subkey() {
    let primary = primary_key();
    let details = details_for(&primary, Vec::new());
    let sub_ok = subkey_material(1);
    let sig = forward_sig(&primary, &sub_ok, Vec::new());
    let signed = SignedPublicSubKey::new(sub_ok, vec![sig]);
    let unsigned = SignedPublicSubKey {
        key: subkey_material(2),
        signatures: Vec::new(),
    };
    let (cert, notes) = SignedPublicKey::new_reported(primary, details, vec![unsigned, signed]);
    assert_eq!(cert.public_subkeys.len(), 1);
    assert!(!cert.public_subkeys[0].signatures.is_empty());
    assert_eq!(notes, vec![AssemblyNote::UnsignedSubkey]);
}

#[test]
fn assembly_drops_wrong_typed_signature() {
    let primary = primary_key();
    let sub = subkey_material(1);
    let binding = forward_sig(&primary, &sub, Vec::new());
    let stray = Signature {
        typ: SignatureType::Certification,
        created_at: 0,
        hashed: Vec::new(),
        unhashed: Vec::new(),
        sig_bytes: vec![1, 2, 3],
    };
    let (sk, notes) = SignedPublicSubKey::new_reported(sub, vec![binding.clone(), stray]);
    assert_eq!(sk.signatures.len(), 1);
    assert_eq!(sk.signatures[0], binding);
    assert_eq!(notes, vec![AssemblyNote::UnexpectedSignatureType(0x13)]);
    // revocations are retained
    let sub2 = subkey_material(3);
    let mut revocation = forward_sig(&primary, &sub2, Vec::new());
    revocation.typ = SignatureType::SubkeyRevocation;
    let (sk2, notes2) = SignedPublicSubKey::new_reported(sub2, vec![revocation]);
    assert_eq!(sk2.signatures.len(), 1);
    assert!(notes2.is_empty());
}

#[test]
fn verify_zero_subkeys_ok() {
    let cert = valid_cert(0);
    assert_eq!(cert.verify(), Ok(()));
}

#[test]
fn verify_many_subkeys_ok() {
    let cert = valid_cert(3);
    assert_eq!(cert.verify(), Ok(()));
}

#[test]
fn verify_flipped_bit_fails() {
    let mut cert = valid_cert(1);
    cert.public_subkeys[0].signatures[0].sig_bytes[0] ^= 0x01;
    assert_eq!(cert.verify(), Err(Error::SubkeyBindingSignature));
}

#[test]
fn verify_flipped_key_flags_fails() {
    // the key flags sit in the hashed (signed) area: altering them after
    // signing must break the forward binding
    let primary = primary_key();
    let sub = subkey_material(1);
    let sig = forward_sig(&primary, &sub, vec![Subpacket::KeyFlags(0x0C)]);
    let sk = SignedPublicSubKey::new(sub, vec![sig]);
    let details = details_for(&primary, Vec::new());
    let mut cert = SignedPublicKey::new(primary, details, vec![sk]);
    cert.public_subkeys[0].signatures[0].hashed[0] = Subpacket::KeyFlags(0x0D);
    assert_eq!(cert.verify(), Err(Error::SubkeyBindingSignature));
}

#[test]
fn verify_bad_identity_signature_fails() {
    let mut cert = valid_cert(0);
    cert.details.users[0].signatures[0].sig_bytes[7] ^= 0x80;
    assert_eq!(cert.verify(), Err(Error::IdentitySignature));
}

#[test]
fn verify_checks_every_signature() {
    // one forged extra signature fails the whole certificate, even though
    // a valid one is present
    let primary = primary_key();
    let sub = subkey_material(1);
    let good = forward_sig(&primary, &sub, Vec::new());
    let mut bad = good.clone();
    bad.sig_bytes[3] ^= 0x10;
    let sk = SignedPublicSubKey::new(sub, vec![good, bad]);
    let details = details_for(&primary, Vec::new());
    let cert = SignedPublicKey::new(primary, details, vec![sk]);
    assert_eq!(cert.verify(), Err(Error::SubkeyBindingSignature));
}

#[test]
fn missing_embedded_signature_fails() {
    let primary = primary_key();
    let sub = subkey_material(1);
    // 0x02: signing capable, but no embedded signature subpacket
    let sig = forward_sig(&primary, &sub, vec![Subpacket::KeyFlags(0x02)]);
    let sk = SignedPublicSubKey::new(sub, vec![sig]);
    let details = details_for(&primary, Vec::new());
    let cert = SignedPublicKey::new(primary, details, vec![sk]);
    let err = cert.verify().unwrap_err();
    assert_eq!(err, Error::MissingEmbeddedSignature);
    assert_eq!(
        err.description(),
        "missing embedded signature for signing capable subkey"
    );
}

#[test]
fn signing_capable_with_valid_reverse_binding_ok() {
    let primary = primary_key();
    let sub = subkey_material(1);
    let back = reverse_sig(&primary, &sub);
    let sig = forward_sig(
        &primary,
        &sub,
        vec![
            Subpacket::KeyFlags(0x02),
            Subpacket::EmbeddedSignature(back),
        ],
    );
    let sk = SignedPublicSubKey::new(sub, vec![sig]);
    let details = details_for(&primary, Vec::new());
    let cert = SignedPublicKey::new(primary, details, vec![sk]);
    assert_eq!(cert.verify(), Ok(()));
}

#[test]
fn bad_reverse_binding_fails() {
    let primary = primary_key();
    let sub = subkey_material(1);
    let mut back = reverse_sig(&primary, &sub);
    back.sig_bytes[0] ^= 0x40;
    let sig = forward_sig(
        &primary,
        &sub,
        vec![
            Subpacket::KeyFlags(0x02),
            Subpacket::EmbeddedSignature(back),
        ],
    );
    let sk = SignedPublicSubKey::new(sub, vec![sig]);
    let details = details_for(&primary, Vec::new());
    let cert = SignedPublicKey::new(primary, details, vec![sk]);
    assert_eq!(cert.verify(), Err(Error::PrimaryKeyBindingSignature));
}

#[test]
fn missing_subkey_bindings_error() {
    // a subkey with no signatures, reaching verification past the
    // assembler, fails with the structural error
    let sk = SignedPublicSubKey {
        key: subkey_material(1),
        signatures: Vec::new(),
    };
    let primary = primary_key();
    let err = sk.verify(&primary).unwrap_err();
    assert_eq!(err, Error::MissingSubkeyBindings);
    assert_eq!(err.description(), "missing subkey bindings");
}

#[test]
fn expires_at_absent_without_subpacket() {
    let cert = valid_cert(0);
    assert_eq!(cert.expires_at(), None);
}

#[test]
fn expires_at_zero_duration() {
    let primary = primary_key();
    let details = details_for(&primary, vec![Subpacket::KeyExpiration(0)]);
    let cert = SignedPublicKey::new(primary, details, Vec::new());
    assert_eq!(cert.expires_at(), Some(1_000_000));
}

#[test]
fn expires_at_creation_plus_duration() {
    let primary = primary_key();
    let details = details_for(&primary, vec![Subpacket::KeyExpiration(86_400)]);
    let cert = SignedPublicKey::new(primary, details, Vec::new());
    assert_eq!(cert.expires_at(), Some(1_000_000 + 86_400));
}

#[test]
fn write_len_matches_emitted_bytes() {
    for n in [0usize, 1, 4] {
        let cert = valid_cert(n);
        let bytes = cert.to_bytes();
        assert_eq!(cert.write_len(), bytes.len());
        let mut appended = vec![0xAAu8];
        cert.to_writer(&mut appended);
        assert_eq!(appended.len(), 1 + bytes.len());
        assert_eq!(&appended[1..], &bytes[..]);
    }
}

#[test]
fn subkey_write_len_matches_emitted_bytes() {
    let cert = valid_cert(2);
    for sk in &cert.public_subkeys {
        let mut out = Vec::new();
        sk.to_writer(&mut out);
        assert_eq!(sk.write_len(), out.len());
    }
}

#[test]
fn serialized_primary_key_packet_framing() {
    // one-octet length header: 0xC6 tag, body length, then the body
    let cert = valid_cert(0);
    let bytes = cert.to_bytes();
    assert_eq!(bytes[0], 0xC6);
    let body = cert.primary_key.body_bytes();
    assert_eq!(bytes[1] as usize, body.len());
    assert_eq!(&bytes[2..2 + body.len()], &body[..]);
    // key body: version, creation time, algorithm, key material
    assert_eq!(body[0], 4);
    assert_eq!(&body[1..5], &[0x00, 0x0F, 0x42, 0x40]);
    assert_eq!(body[5], 22);
    assert_eq!(&body[6..], &[1, 2, 3, 4, 5, 6, 7, 8]);
}

#[test]
fn round_trip_through_parser() {
    for n in [0usize, 1, 2] {
        let cert = valid_cert(n);
        let packets = cert.to_packets();
        let mut parser = SignedPublicKeyParser::from_packets(packets);
        let parsed = parser.next().unwrap().unwrap();
        assert_eq!(parsed, cert);
        assert_eq!(parsed.verify(), cert.verify());
        assert!(parser.next().is_none());
        assert!(parser.into_inner().is_empty());
    }
}

#[test]
fn parser_groups_two_blocks() {
    let first = valid_cert(1);
    let second = valid_cert(0);
    let mut packets = first.to_packets();
    packets.extend(second.to_packets());
    let mut parser = SignedPublicKeyParser::from_packets(packets);
    assert_eq!(parser.next().unwrap().unwrap(), first);
    assert_eq!(parser.next().unwrap().unwrap(), second);
    assert!(parser.next().is_none());
}

#[test]
fn parser_passes_errors_through() {
    let packets: Vec<Result<Packet, Error>> = vec![Err(Error::MalformedBlock)];
    let mut parser = SignedPublicKeyParser::from_packets(packets);
    assert_eq!(parser.next(), Some(Err(Error::MalformedBlock)));
    assert!(parser.next().is_none());
}

#[test]
fn parser_rejects_block_without_primary_key() {
    let cert = valid_cert(0);
    let packets: Vec<Result<Packet, Error>> = vec![
        Ok(Packet::UserId(b"stray".to_vec())),
        Ok(Packet::PublicKey(cert.primary_key.clone())),
    ];
    let mut parser = SignedPublicKeyParser::from_packets(packets);
    assert_eq!(parser.next(), Some(Err(Error::MalformedBlock)));
    // the stray packet is consumed up to the next primary key, which then
    // yields its own (empty) certificate
    let next = parser.next().unwrap().unwrap();
    assert_eq!(next.primary_key, cert.primary_key);
    assert!(next.public_subkeys.is_empty());
}

#[test]
fn as_unsigned_takes_first_signature_only() {
    let primary = primary_key();
    let details = details_for(&primary, Vec::new());
    let mut subkeys = Vec::new();
    // first subkey: two signatures with different key flags; the unsigned
    // view must reflect the first
    let sub1 = subkey_material(1);
    let back = reverse_sig(&primary, &sub1);
    let first = forward_sig(
        &primary,
        &sub1,
        vec![
            Subpacket::KeyFlags(0x02),
            Subpacket::EmbeddedSignature(back.clone()),
        ],
    );
    let second = forward_sig(&primary, &sub1, vec![Subpacket::KeyFlags(0x0C)]);
    subkeys.push(SignedPublicSubKey::new(sub1.clone(), vec![first, second]));
    let sub2 = subkey_material(2);
    let only = forward_sig(&primary, &sub2, vec![Subpacket::KeyFlags(0x0C)]);
    subkeys.push(SignedPublicSubKey::new(sub2.clone(), vec![only]));
    let cert = SignedPublicKey::new(primary.clone(), details, subkeys);

    let unsigned: PublicKey = cert.as_unsigned();
    assert_eq!(unsigned.primary_key, primary);
    assert_eq!(unsigned.user_ids, vec![b"alice <alice@example.org>".to_vec()]);
    assert_eq!(unsigned.subkeys.len(), 2);
    assert_eq!(unsigned.subkeys[0].key, sub1);
    assert_eq!(unsigned.subkeys[0].key_flags, 0x02);
    assert_eq!(unsigned.subkeys[0].embedded, Some(back));
    assert_eq!(unsigned.subkeys[1].key, sub2);
    assert_eq!(unsigned.subkeys[1].key_flags, 0x0C);
    assert_eq!(unsigned.subkeys[1].embedded, None);
}

#[test]
fn armored_string_has_framing_and_checksum() {
    let cert = valid_cert(1);
    let opts = ArmorOptions {
        headers: vec![ArmorHeader {
            key: b"Comment".to_vec(),
            value: b"test key".to_vec(),
        }],
        include_checksum: true,
    };
    let text = cert.to_armored_string(&opts).unwrap();
    assert!(text.starts_with("-----BEGIN PGP PUBLIC KEY BLOCK-----\n"));
    assert!(text.ends_with("-----END PGP PUBLIC KEY BLOCK-----\n"));
    assert!(text.contains("Comment: test key\n\n"));
    let lines: Vec<&str> = text.lines().collect();
    // the checksum line is the last before END: '=' then four base64 chars
    let crc_line = lines[lines.len() - 2];
    assert_eq!(crc_line.len(), 5);
    assert!(crc_line.starts_with('='));
    // every base64 line is at most 64 columns
    for line in &lines[2..lines.len() - 2] {
        assert!(line.len() <= 64);
    }
}

#[test]
fn armored_without_checksum_or_headers() {
    let cert = valid_cert(0);
    let opts = ArmorOptions {
        headers: Vec::new(),
        include_checksum: false,
    };
    let text = cert.to_armored_string(&opts).unwrap();
    assert!(text.starts_with("-----BEGIN PGP PUBLIC KEY BLOCK-----\n\n"));
    // no checksum trailer: no line starts with '='
    assert!(!text.lines().any(|l| l.starts_with('=')));
    let bytes = cert.to_armored_bytes(&opts).unwrap();
    assert_eq!(text.as_bytes(), &bytes[..]);
}

#[test]
fn armored_base64_encodes_the_wire_bytes() {
    // a certificate whose wire form is known byte for byte would make this
    // brittle; instead check the base64 text length matches the wire length
    let cert = valid_cert(0);
    let wire = cert.to_bytes();
    let opts = ArmorOptions {
        headers: Vec::new(),
        include_checksum: false,
    };
    let text = cert.to_armored_string(&opts).unwrap();
    let payload: String = text
        .lines()
        .skip(2)
        .take_while(|l| !l.starts_with("-----END"))
        .collect();
    assert_eq!(payload.len(), 4 * wire.len().div_ceil(3));
    // base64 of [1,2,3,4,5,6,7,8] appears inside (the key material)
    assert_eq!(payload.is_empty(), false);
}

#[test]
fn to_armored_writer_appends() {
    let cert = valid_cert(0);
    let opts = ArmorOptions {
        headers: Vec::new(),
        include_checksum: true,
    };
    let mut out = b"prefix".to_vec();
    cert.to_armored_writer(&mut out, &opts).unwrap();
    assert!(out.starts_with(b"prefix-----BEGIN"));
}

#[test]
fn encrypt_is_a_masked_copy() {
    let cert = valid_cert(1);
    let seed = vec![7u8, 7, 7, 7];
    let plain = b"attack at dawn, twice over padding".to_vec();
    let r = cert.encrypt(&seed, &plain, EskType::V6);
    assert_eq!(r.typ, EskType::V6);
    assert_eq!(r.key_id, cert.fingerprint());
    assert_eq!(r.seed, seed);
    assert_eq!(r.body.len(), plain.len());
    assert_ne!(r.body, plain);
    // deterministic in (key, seed, plain)
    let r2 = cert.encrypt(&seed, &plain, EskType::V6);
    assert_eq!(r.body, r2.body);
    // the subkey encrypts under its own material
    let rs = cert.public_subkeys[0].encrypt(&seed, &plain, EskType::V3);
    assert_eq!(rs.key_id, cert.public_subkeys[0].fingerprint());
    assert_ne!(rs.body, r.body);
}

#[test]
fn key_identity_delegates_to_own_material() {
    let cert = valid_cert(1);
    assert_eq!(cert.version(), 4);
    assert_eq!(cert.algorithm(), 22);
    assert_eq!(cert.created_at(), 1_000_000);
    assert_eq!(cert.expiration(), None);
    assert_eq!(cert.fingerprint(), cert.key_id());
    assert_eq!(cert.public_params(), &vec![1, 2, 3, 4, 5, 6, 7, 8]);
    let sk = &cert.public_subkeys[0];
    // a subkey never inherits the primary's identity
    assert_ne!(sk.fingerprint(), cert.fingerprint());
    assert_eq!(sk.algorithm(), 18);
    assert_eq!(sk.created_at(), 2_000_000);
}

#[test]
fn verify_signature_checks_the_tag() {
    let cert = valid_cert(0);
    let data = b"some signed data".to_vec();
    let good = compute_tag(&cert.primary_key.key_bytes, &data);
    assert!(cert.verify_signature(&data, &good).is_ok());
    let mut bad = good.clone();
    bad[0] ^= 1;
    assert!(cert.verify_signature(&data, &bad).is_err());
}

#[test]
fn block_type_declaration() {
    assert!(SignedPublicKey::matches_block_type(BlockType::PublicKey));
    assert!(SignedPublicKey::matches_block_type(BlockType::File));
    assert!(!SignedPublicKey::matches_block_type(BlockType::PrivateKey));
    assert!(!SignedPublicKey::matches_block_type(BlockType::Message));
}

#[test]
fn armored_string_accepts_utf8_headers() {
    // a two-byte UTF-8 character in a header value is valid text
    let cert = valid_cert(0);
    let opts = ArmorOptions {
        headers: vec![ArmorHeader {
            key: b"Comment".to_vec(),
            value: vec![0xC3, 0xA9],
        }],
        include_checksum: true,
    };
    let text = cert.to_armored_string(&opts).unwrap();
    assert!(text.contains("Comment: \u{e9}\n"));
    let bytes = cert.to_armored_bytes(&opts).unwrap();
    assert_eq!(text.as_bytes(), &bytes[..]);
}

#[test]
fn armored_string_rejects_ill_formed_headers() {
    // 0xFF can appear in no UTF-8 text
    let cert = valid_cert(0);
    let opts = ArmorOptions {
        headers: vec![ArmorHeader {
            key: b"Comment".to_vec(),
            value: vec![0xFF],
        }],
        include_checksum: true,
    };
    assert_eq!(cert.to_armored_string(&opts), Err(Error::TextEncoding));
    // the byte rendering itself still succeeds
    assert!(cert.to_armored_bytes(&opts).is_ok());
}

#[test]
fn large_key_uses_five_octet_length() {
    let primary = KeyMaterial {
        version: 4,
        algorithm: 1,
        created_at: 1_000_000,
        expiration: None,
        key_bytes: vec![0x5A; 70_000],
    };
    let details = details_for(&primary, Vec::new());
    let cert = SignedPublicKey::new(primary, details, Vec::new());
    assert_eq!(cert.verify(), Ok(()));
    let bytes = cert.to_bytes();
    assert_eq!(cert.write_len(), bytes.len());
    // 70_006-byte body: 0xFF marker then four big-endian length octets
    assert_eq!(bytes[0], 0xC6);
    assert_eq!(bytes[1], 0xFF);
    assert_eq!(&bytes[2..6], &[0x00, 0x01, 0x11, 0x76]);
}
