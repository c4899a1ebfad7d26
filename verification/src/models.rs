//! Core identity and time types that the credential model refers to: an
//! identity `Identifier`, the `ChangeHash` pinning a key-rotation event, a
//! seconds-resolution UTC timestamp, and the purpose a key is scoped to.

use vstd::prelude::*;

verus! {

/// Identifier of an identity (issuer or subject): an opaque byte value.
#[derive(Clone, Debug)]
pub struct Identifier(pub Vec<u8>);

impl View for Identifier {
    type V = Seq<u8>;

    open spec fn view(&self) -> Seq<u8> {
        self.0@
    }
}

/// Hash of the latest change in an identity's key-rotation history.
#[derive(Clone, Debug)]
pub struct ChangeHash(pub Vec<u8>);

impl View for ChangeHash {
    type V = Seq<u8>;

    open spec fn view(&self) -> Seq<u8> {
        self.0@
    }
}

/// An absolute UTC timestamp with seconds resolution.
#[derive(Clone, Copy, Debug, PartialEq, Eq, Structural)]
pub struct TimestampInSeconds(pub u64);

impl View for TimestampInSeconds {
    type V = u64;

    open spec fn view(&self) -> u64 {
        self.0
    }
}

/// The purpose an identity key is scoped to.
#[derive(Clone, Copy, Debug, PartialEq, Eq, Structural)]
pub enum Purpose {
    /// The key protects secure-channel traffic.
    SecureChannel,
    /// The key signs credentials.
    Credentials,
}

/// Handle of a key held in a vault.
pub type KeyId = String;

} // verus!
