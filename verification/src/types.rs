//! Shared plain types: signature types, key flags, errors, and the
//! encrypted-session-key request type.

use vstd::prelude::*;

verus! {

/// The type of an OpenPGP signature, as far as this library distinguishes
/// them. `Other` carries the raw wire code of any type the library has no
/// use for; a well-formed value never holds a known code there.
#[derive(Debug, Clone, Copy, PartialEq, Eq, Structural)]
pub enum SignatureType {
    /// A certification (identity self-signature) over a user id.
    Certification,
    /// A forward binding of a subkey by the primary key.
    SubkeyBinding,
    /// A reverse binding of the primary key by a signing-capable subkey.
    PrimaryKeyBinding,
    /// A revocation of a subkey binding.
    SubkeyRevocation,
    /// Any other signature type, by wire code.
    Other(u8),
}

/// The wire code of a signature type.
pub open spec fn sig_type_code_spec(t: SignatureType) -> u8 {
    match t {
        SignatureType::Certification => 0x13,
        SignatureType::SubkeyBinding => 0x18,
        SignatureType::PrimaryKeyBinding => 0x19,
        SignatureType::SubkeyRevocation => 0x28,
        SignatureType::Other(c) => c,
    }
}

/// The canonical signature type for a wire code.
pub open spec fn sig_type_of_code_spec(c: u8) -> SignatureType {
    if c == 0x13 {
        SignatureType::Certification
    } else if c == 0x18 {
        SignatureType::SubkeyBinding
    } else if c == 0x19 {
        SignatureType::PrimaryKeyBinding
    } else if c == 0x28 {
        SignatureType::SubkeyRevocation
    } else {
        SignatureType::Other(c)
    }
}

/// A signature type is canonical when `Other` never shadows a known code,
/// so that the wire code determines the value.
pub open spec fn sig_type_canonical(t: SignatureType) -> bool {
    match t {
        SignatureType::Other(c) => c != 0x13 && c != 0x18 && c != 0x19 && c != 0x28,
        _ => true,
    }
}

impl SignatureType {
    /// The wire code of this signature type.
    pub fn code(&self) -> (r: u8)
        ensures
            r == sig_type_code_spec(*self),
    {
        match self {
            SignatureType::Certification => 0x13,
            SignatureType::SubkeyBinding => 0x18,
            SignatureType::PrimaryKeyBinding => 0x19,
            SignatureType::SubkeyRevocation => 0x28,
            SignatureType::Other(c) => *c,
        }
    }

    /// The canonical signature type for a wire code.
    pub fn from_code(c: u8) -> (r: SignatureType)
        ensures
            r == sig_type_of_code_spec(c),
            sig_type_canonical(r),
    {
        if c == 0x13 {
            SignatureType::Certification
        } else if c == 0x18 {
            SignatureType::SubkeyBinding
        } else if c == 0x19 {
            SignatureType::PrimaryKeyBinding
        } else if c == 0x28 {
            SignatureType::SubkeyRevocation
        } else {
            SignatureType::Other(c)
        }
    }
}

/// Whether a key-flags octet marks the key signing-capable.
pub open spec fn flags_sign_spec(f: u8) -> bool {
    f & 0x02 != 0
}

/// Whether a key-flags octet marks the key signing-capable.
pub fn flags_sign(f: u8) -> (r: bool)
    ensures
        r == flags_sign_spec(f),
{
    f & 0x02 != 0
}

/// Everything that verification or parsing can report. Assembly never
/// errors: its anomalies are recovered by dropping the offending element
/// and recording a diagnostic.
#[derive(Debug, Clone, Copy, PartialEq, Eq, Structural)]
pub enum Error {
    /// A subkey with no signatures reached verification.
    MissingSubkeyBindings,
    /// An identity self-signature failed to verify.
    IdentitySignature,
    /// A forward subkey-binding signature failed to verify.
    SubkeyBindingSignature,
    /// A signing-capable subkey's binding carries no embedded signature.
    MissingEmbeddedSignature,
    /// An embedded reverse binding signature failed to verify.
    PrimaryKeyBindingSignature,
    /// A packet stream did not form a transferable-key block.
    MalformedBlock,
    /// Armored output held a byte outside the ASCII range.
    TextEncoding,
}

impl Error {
    /// A short human-readable account of the error.
    pub fn description(&self) -> (r: &'static str)
        ensures
            *self == Error::MissingSubkeyBindings ==> r@ == "missing subkey bindings"@,
            *self == Error::IdentitySignature ==> r@ == "invalid identity self-signature"@,
            *self == Error::SubkeyBindingSignature ==> r@ == "invalid subkey binding signature"@,
            *self == Error::MissingEmbeddedSignature ==> r@
                == "missing embedded signature for signing capable subkey"@,
            *self == Error::PrimaryKeyBindingSignature ==> r@
                == "invalid embedded primary key binding signature"@,
            *self == Error::MalformedBlock ==> r@ == "malformed transferable key block"@,
            *self == Error::TextEncoding ==> r@ == "armored text held a non-ascii byte"@,
    {
        match self {
            Error::MissingSubkeyBindings => "missing subkey bindings",
            Error::IdentitySignature => "invalid identity self-signature",
            Error::SubkeyBindingSignature => "invalid subkey binding signature",
            Error::MissingEmbeddedSignature => {
                "missing embedded signature for signing capable subkey"
            },
            Error::PrimaryKeyBindingSignature => "invalid embedded primary key binding signature",
            Error::MalformedBlock => "malformed transferable key block",
            Error::TextEncoding => "armored text held a non-ascii byte",
        }
    }
}

/// Which encrypted-session-key format an encryption request targets.
#[derive(Debug, Clone, Copy, PartialEq, Eq, Structural)]
pub enum EskType {
    /// The v3 PKESK format.
    V3,
    /// The v6 PKESK format.
    V6,
}

/// A diagnostic recorded while assembling a certificate: which element was
/// dropped, and why.
#[derive(Debug, Clone, Copy, PartialEq, Eq, Structural)]
pub enum AssemblyNote {
    /// A candidate subkey carried no signatures and was dropped.
    UnsignedSubkey,
    /// A signature of an unexpected type trailed a subkey and was dropped.
    UnexpectedSignatureType(u8),
}

} // verus!
