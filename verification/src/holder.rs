//! The Holder's credential-exchange state machine. The machine enforces a
//! strict linear ordering: a credential cannot be requested before the
//! issuer's key is verified, and fragments cannot be combined before both
//! halves exist. Messages outside the expected state are silently dropped,
//! which tolerates duplicate or retried deliveries; outside work (routing,
//! timing) is the caller's, handed in as plain values.

use vstd::prelude::*;
use crate::credential::{Credential, CredentialSchemaIdentifier};
use crate::protocol::{CredentialFragment1, CredentialMessage, CredentialPresentation,
    Destination, ExchangeError, OfferIdBytes, Outgoing, PresentationManifest, PublicKeyBytes};
use crate::vault::{VaultCapability, copy_bytes};

verus! {

/// The Holder role: obtains a signed credential from an issuer and presents
/// it to a verifier. It owns its transient state exclusively; all
/// coordination is via messages.
pub struct Holder<V: VaultCapability> {
    /// The injected cryptographic capability.
    pub vault: V,
    /// The schema the holder presents under.
    pub schema: CredentialSchemaIdentifier,
    /// The issuer's public key, learned from a verified proof of possession;
    /// never configured.
    pub issuer_pubkey: Option<PublicKeyBytes>,
    /// The holder's half of the blinding fragment pair.
    pub frag1: Option<CredentialFragment1>,
    /// The finished credential, once the fragments are combined.
    pub credential: Option<Credential>,
    /// The freshly generated single-use presentation identifier.
    pub offer_id: Option<OfferIdBytes>,
}

impl<V: VaultCapability> Holder<V> {
    /// The state machine's invariant: a retained fragment presupposes a
    /// verified issuer key.
    pub open spec fn wf(&self) -> bool {
        self.frag1 is Some ==> self.issuer_pubkey is Some
    }

    /// A fresh holder: no issuer key, no fragment, no credential, no
    /// presentation identifier.
    pub fn new(vault: V, schema: CredentialSchemaIdentifier) -> (r: Holder<V>)
        ensures
            r.wf(),
            r.vault == vault,
            r.schema == schema,
            r.issuer_pubkey is None,
            r.frag1 is None,
            r.credential is None,
            r.offer_id is None,
    {
        Holder { vault, schema, issuer_pubkey: None, frag1: None, credential: None, offer_id: None }
    }

    /// Starts an exchange: the holder opens the conversation by sending
    /// `CredentialConnection` to the issuer.
    pub fn initialize(&self) -> (msgs: Vec<Outgoing>)
        ensures
            msgs@.len() == 1,
            msgs@[0].destination == Destination::Issuer,
            msgs@[0].message is CredentialConnection,
    {
        let mut msgs: Vec<Outgoing> = Vec::new();
        msgs.push(
            Outgoing {
                destination: Destination::Issuer,
                message: CredentialMessage::CredentialConnection,
            },
        );
        msgs
    }

    /// Handles one inbound protocol message to completion; `fresh_id` is the
    /// fresh single-use presentation identifier, drawn by the caller (a
    /// cryptographically random value in a real deployment), used only when a
    /// presentation is built.
    ///
    /// The contract pins the strict ordering of the exchange: an unverified
    /// proof fails the exchange with `InvalidProof` and stores no key; an
    /// offer before a verified issuer key fails with `InvalidInternalState`
    /// and produces no request; fragments are combined exactly as the vault
    /// combines them; the shipped presentation names the holder's schema, the
    /// stored issuer key, attribute index 1, and the fresh identifier; and
    /// messages outside the expected state are dropped.
    pub fn handle_message(&mut self, msg: CredentialMessage, fresh_id: &OfferIdBytes) -> (r: Result<
        Vec<Outgoing>,
        ExchangeError,
    >)
        requires
            old(self).wf(),
        ensures
            final(self).wf(),
            final(self).vault == old(self).vault,
            final(self).schema == old(self).schema,
            match msg {
                CredentialMessage::CredentialIssuer { public_key, proof } => {
                    if old(self).vault.verify_pop_spec(public_key@, proof@) {
                        &&& final(self).issuer_pubkey matches Some(k) && k@ == public_key@
                        &&& final(self).frag1 == old(self).frag1
                        &&& final(self).credential == old(self).credential
                        &&& final(self).offer_id == old(self).offer_id
                        &&& r matches Ok(msgs) && msgs@.len() == 1 && msgs@[0].destination
                            == Destination::Reply && msgs@[0].message is NewCredential
                    } else {
                        &&& r == Result::<Vec<Outgoing>, ExchangeError>::Err(
                            ExchangeError::InvalidProof,
                        )
                        &&& *final(self) == *old(self)
                    }
                },
                CredentialMessage::CredentialOffer(offer) => {
                    if old(self).issuer_pubkey is None {
                        &&& r == Result::<Vec<Outgoing>, ExchangeError>::Err(
                            ExchangeError::InvalidInternalState,
                        )
                        &&& *final(self) == *old(self)
                    } else {
                        &&& (r matches Ok(msgs) ==> final(self).frag1 is Some
                            && final(self).issuer_pubkey == old(self).issuer_pubkey
                            && final(self).credential == old(self).credential
                            && final(self).offer_id == old(self).offer_id && msgs@.len() == 1
                            && msgs@[0].destination == Destination::Reply
                            && msgs@[0].message is CredentialRequest)
                        &&& (r is Err ==> r == Result::<Vec<Outgoing>, ExchangeError>::Err(
                            ExchangeError::InvalidInternalState,
                        ) && *final(self) == *old(self))
                    }
                },
                CredentialMessage::CredentialResponse(frag2) => {
                    if old(self).frag1 is None {
                        &&& r matches Ok(msgs) && msgs@.len() == 0
                        &&& *final(self) == *old(self)
                    } else {
                        &&& (old(self).frag1 matches Some(f1) ==> final(self).credential matches Some(c)
                            && c@ == old(self).vault.combine_spec(f1@, frag2@))
                        &&& final(self).offer_id matches Some(oid) && oid@ == fresh_id@
                        &&& final(self).issuer_pubkey == old(self).issuer_pubkey
                        &&& final(self).frag1 == old(self).frag1
                        &&& (r matches Ok(msgs) ==> msgs@.len() == 1 && msgs@[0].destination
                            == Destination::Verifier
                            && (msgs@[0].message matches CredentialMessage::Presentation(p)
                            && p@.manifest.credential_schema == old(self).schema.0
                            && (old(self).issuer_pubkey matches Some(k) && p@.manifest.public_key
                            == k@) && p@.manifest.revealed == seq![1usize]
                            && p@.presentation_id == fresh_id@))
                        &&& (r is Err ==> r == Result::<Vec<Outgoing>, ExchangeError>::Err(
                            ExchangeError::PresentationFailed,
                        ))
                    }
                },
                _ => {
                    &&& r matches Ok(msgs) && msgs@.len() == 0
                    &&& *final(self) == *old(self)
                },
            },
    {
        match msg {
            CredentialMessage::CredentialIssuer { public_key, proof } => {
                if self.vault.verify_proof_of_possession(&public_key, &proof) {
                    self.issuer_pubkey = Some(public_key);
                    let mut msgs: Vec<Outgoing> = Vec::new();
                    msgs.push(
                        Outgoing {
                            destination: Destination::Reply,
                            message: CredentialMessage::NewCredential,
                        },
                    );
                    Ok(msgs)
                } else {
                    Err(ExchangeError::InvalidProof)
                }
            },
            CredentialMessage::CredentialOffer(offer) => {
                match &self.issuer_pubkey {
                    Some(issuer_key) => {
                        match self.vault.accept_credential_offer(&offer, issuer_key) {
                            Ok((request, frag1)) => {
                                self.frag1 = Some(frag1);
                                let mut msgs: Vec<Outgoing> = Vec::new();
                                msgs.push(
                                    Outgoing {
                                        destination: Destination::Reply,
                                        message: CredentialMessage::CredentialRequest(request),
                                    },
                                );
                                Ok(msgs)
                            },
                            Err(_) => Err(ExchangeError::InvalidInternalState),
                        }
                    },
                    None => Err(ExchangeError::InvalidInternalState),
                }
            },
            CredentialMessage::CredentialResponse(frag2) => {
                let f1 = match &self.frag1 {
                    Some(f1) => CredentialFragment1(copy_bytes(&f1.0)),
                    None => {
                        return Ok(Vec::new());
                    },
                };
                let issuer_key = match &self.issuer_pubkey {
                    Some(k) => PublicKeyBytes(copy_bytes(&k.0)),
                    None => {
                        return Err(ExchangeError::InvalidInternalState);
                    },
                };
                let credential = self.vault.combine_credential_fragments(f1, frag2);
                self.credential = Some(copy_credential(&credential));
                let mut revealed: Vec<usize> = Vec::new();
                revealed.push(1);
                proof {
                    assert(revealed@ =~= seq![1usize]);
                }
                let manifest = PresentationManifest {
                    credential_schema: self.schema,
                    public_key: issuer_key,
                    revealed,
                };
                self.offer_id = Some(OfferIdBytes(copy_bytes(&fresh_id.0)));
                let mut credentials: Vec<Credential> = Vec::new();
                credentials.push(credential);
                let mut manifests: Vec<PresentationManifest> = Vec::new();
                manifests.push(manifest);
                match self.vault.present_credentials(&credentials, &manifests, fresh_id) {
                    Ok(presentation) => {
                        let mut msgs: Vec<Outgoing> = Vec::new();
                        msgs.push(
                            Outgoing {
                                destination: Destination::Verifier,
                                message: CredentialMessage::Presentation(presentation),
                            },
                        );
                        Ok(msgs)
                    },
                    Err(_) => Err(ExchangeError::PresentationFailed),
                }
            },
            _ => Ok(Vec::new()),
        }
    }
}

/// Copies a credential value.
pub fn copy_credential(c: &Credential) -> (r: Credential)
    ensures
        r@ == c@,
{
    let signature = match &c.signature {
        crate::credential::CredentialSignature::EdDSACurve25519(
            s,
        ) => crate::credential::CredentialSignature::EdDSACurve25519(
            crate::credential::EdDSACurve25519Signature(copy_bytes(&s.0)),
        ),
        crate::credential::CredentialSignature::ECDSASHA256CurveP256(
            s,
        ) => crate::credential::CredentialSignature::ECDSASHA256CurveP256(
            crate::credential::ECDSASHA256CurveP256Signature(copy_bytes(&s.0)),
        ),
    };
    Credential { data: copy_bytes(&c.data), signature }
}

/// Reports whether two lists of revealed attribute indices agree.
fn revealed_eq(a: &Vec<usize>, b: &Vec<usize>) -> (r: bool)
    ensures
        r == (a@ == b@),
{
    if a.len() != b.len() {
        return false;
    }
    let mut k: usize = 0;
    while k < a.len()
        invariant
            0 <= k <= a@.len(),
            a@.len() == b@.len(),
            forall|j: int| 0 <= j < k ==> a@[j] == b@[j],
        decreases a@.len() - k,
    {
        if a[k] != b[k] {
            return false;
        }
        k = k + 1;
    }
    proof {
        assert(a@ =~= b@);
    }
    true
}

/// The verifier's check of a presentation against the manifest it agreed to:
/// accepted exactly when the presentation's manifest names the expected
/// issuer key, the expected schema, and the expected revealed attribute
/// indices.
pub fn check_presentation(expected: &PresentationManifest, p: &CredentialPresentation) -> (r: bool)
    ensures
        r == (p@.manifest == expected@),
{
    let r = crate::vault::bytes_eq(&p.manifest.public_key.0, &expected.public_key.0)
        && p.manifest.credential_schema.0 == expected.credential_schema.0 && revealed_eq(
        &p.manifest.revealed,
        &expected.revealed,
    );
    proof {
        if p@.manifest == expected@ {
            assert(p@.manifest.public_key == expected@.public_key);
        }
    }
    r
}

} // verus!
