//! Options for provisioning an identity key: an immutable descriptor binding
//! an issuer identity, the purpose the key is scoped to, the key handle, and
//! a validity window. Once constructed, the fields are exposed only by read
//! accessors, so nothing can mutate the descriptor after a signing operation
//! has been scheduled against it.

use vstd::prelude::*;
use crate::models::{Identifier, KeyId, Purpose, TimestampInSeconds};

verus! {

/// Options to create an identity key.
pub struct PurposeKeyOptions {
    identifier: Identifier,
    purpose: Purpose,
    key: KeyId,
    created_at: TimestampInSeconds,
    expires_at: TimestampInSeconds,
}

impl PurposeKeyOptions {
    /// Constructor: binds the descriptor's fields once and for all.
    pub fn new(
        identifier: Identifier,
        purpose: Purpose,
        key: KeyId,
        created_at: TimestampInSeconds,
        expires_at: TimestampInSeconds,
    ) -> (r: Self)
        ensures
            r.spec_identifier() == identifier,
            r.spec_purpose() == purpose,
            r.spec_key() == key,
            r.spec_created_at() == created_at,
            r.spec_expires_at() == expires_at,
    {
        Self { identifier, purpose, key, created_at, expires_at }
    }

    /// The identifier of the issuer that owns the key.
    pub fn identifier(&self) -> (r: &Identifier)
        ensures
            *r == self.spec_identifier(),
    {
        &self.identifier
    }

    /// The declared purpose the key is scoped to.
    pub fn purpose(&self) -> (r: Purpose)
        ensures
            r == self.spec_purpose(),
    {
        self.purpose
    }

    /// The handle of the new key.
    pub fn key(&self) -> (r: &KeyId)
        ensures
            *r == self.spec_key(),
    {
        &self.key
    }

    /// The creation timestamp of the validity window.
    pub fn created_at(&self) -> (r: TimestampInSeconds)
        ensures
            r == self.spec_created_at(),
    {
        self.created_at
    }

    /// The expiration timestamp of the validity window.
    pub fn expires_at(&self) -> (r: TimestampInSeconds)
        ensures
            r == self.spec_expires_at(),
    {
        self.expires_at
    }

    /// The bound identifier.
    pub closed spec fn spec_identifier(&self) -> Identifier {
        self.identifier
    }

    /// The bound purpose.
    pub closed spec fn spec_purpose(&self) -> Purpose {
        self.purpose
    }

    /// The bound key handle.
    pub closed spec fn spec_key(&self) -> KeyId {
        self.key
    }

    /// The bound creation timestamp.
    pub closed spec fn spec_created_at(&self) -> TimestampInSeconds {
        self.created_at
    }

    /// The bound expiration timestamp.
    pub closed spec fn spec_expires_at(&self) -> TimestampInSeconds {
        self.expires_at
    }
}

} // verus!
