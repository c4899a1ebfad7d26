//! Credential issuance, exchange, and presentation between an Issuer, a
//! Holder, and a Verifier: the credential data model with its wire-stable
//! encoding, purpose-bound key options, the vault capability surface, and the
//! Holder's credential-exchange state machine.

pub mod codec;
pub mod credential;
pub mod error_vault;
pub mod holder;
pub mod models;
pub mod protocol;
pub mod purpose_key_options;
pub mod vault;
pub mod wire;
