//! An OpenPGP "transferable public key" (RFC 9580), verified: a primary
//! public key together with self-signed identity bindings and zero or more
//! subkeys, each bound to the primary by binding signatures.
//!
//! The library covers assembling a certificate from an already-parsed packet
//! stream (dropping unsigned subkeys and wrong-typed trailing signatures),
//! the multi-level binding verification protocol (forward subkey bindings
//! plus the mandatory reverse binding for signing-capable subkeys),
//! canonical re-serialization to the exact wire byte sequence with an exact
//! byte-count predictor, ASCII-armored output, and the read-only certificate
//! views (expiration, the unsigned projection, pass-through encryption).
//!
//! Decoding raw bytes into typed packets and the public-key mathematics
//! behind signatures stay outside; the `tag` module defines the checksum
//! that stands for the latter, so validity is a total function the
//! verifier's contracts can state exactly.

pub mod enc;
pub mod tag;
pub mod types;
pub mod key;
pub mod wire;
pub mod sig;
pub mod details;
pub mod cert;
pub mod armor;
pub mod parse;
