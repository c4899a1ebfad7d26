//! The vault capability: the opaque cryptographic interface the protocol
//! calls but does not implement. A production deployment injects a vault
//! backed by real cryptography; a deterministic vault suitable for tests and
//! demonstrations is provided here.

use vstd::prelude::*;
use vstd::slice::slice_to_vec;
use crate::credential::{Credential, CredentialSignature, CredentialSignatureView, CredentialView,
    EdDSACurve25519Signature};
use crate::protocol::{CredentialFragment1, CredentialFragment2, CredentialOffer,
    CredentialPresentation, CredentialRequest, OfferIdBytes, PresentationManifest, ProofBytes,
    PublicKeyBytes};

verus! {

/// The vault could not perform the requested operation.
#[derive(Clone, Copy, Debug, PartialEq, Eq, Structural)]
pub struct VaultError;

/// Copies byte contents.
pub fn copy_bytes(v: &Vec<u8>) -> (r: Vec<u8>)
    ensures
        r@ == v@,
{
    slice_to_vec(v.as_slice())
}

/// Reports whether two byte vectors hold the same bytes.
pub fn bytes_eq(a: &Vec<u8>, b: &Vec<u8>) -> (r: bool)
    ensures
        r == (a@ == b@),
{
    if a.len() != b.len() {
        return false;
    }
    let mut k: usize = 0;
    while k < a.len()
        invariant
            0 <= k <= a@.len(),
            a@.len() == b@.len(),
            forall|j: int| 0 <= j < k ==> a@[j] == b@[j],
        decreases a@.len() - k,
    {
        if a[k] != b[k] {
            return false;
        }
        k = k + 1;
    }
    proof {
        assert(a@ =~= b@);
    }
    true
}

/// The capability every role's constructor is injected with: signing-side
/// proof checks, offer acceptance, fragment combination, and presentation
/// building. Production and test deployments differ only in the vault they
/// inject.
pub trait VaultCapability: Sized {
    /// The verdict this vault gives a proof of possession: a function of the
    /// key and the proof alone.
    spec fn verify_pop_spec(&self, public_key: Seq<u8>, proof: Seq<u8>) -> bool;

    /// The credential this vault combines a fragment pair into: a function of
    /// the fragments alone.
    spec fn combine_spec(&self, f1: Seq<u8>, f2: Seq<u8>) -> CredentialView;

    /// Validates that the party presenting `public_key` also controls the
    /// corresponding private key, without revealing it.
    fn verify_proof_of_possession(&self, public_key: &PublicKeyBytes, proof: &ProofBytes) -> (r:
        bool)
        ensures
            r == self.verify_pop_spec(public_key@, proof@),
    ;

    /// Given an issuer's blinded offer and its public key, produces a request
    /// to send back and a first fragment to retain locally. Fails when the
    /// offer is malformed or inconsistent with the key.
    fn accept_credential_offer(&self, offer: &CredentialOffer, issuer_key: &PublicKeyBytes) -> (r:
        Result<(CredentialRequest, CredentialFragment1), VaultError>);

    /// Deterministically reconstructs the complete signed credential from the
    /// retained fragment and the returned complementary fragment.
    fn combine_credential_fragments(&self, f1: CredentialFragment1, f2: CredentialFragment2) -> (r:
        Credential)
        ensures
            r@ == self.combine_spec(f1@, f2@),
    ;

    /// Binds credentials to a fresh single-use challenge and a disclosure
    /// manifest, producing a presentation a verifier can check without
    /// learning undisclosed attributes: the presentation carries exactly the
    /// first manifest and the given challenge.
    fn present_credentials(
        &self,
        credentials: &Vec<Credential>,
        manifests: &Vec<PresentationManifest>,
        presentation_id: &OfferIdBytes,
    ) -> (r: Result<CredentialPresentation, VaultError>)
        ensures
            r matches Ok(p) ==> p@.manifest == manifests@[0]@ && p@.presentation_id
                == presentation_id@,
    ;
}

/// Fragment combination is deterministic: whatever a vault combines a
/// fragment pair into, two combinations of the same pair agree bit for bit.
pub proof fn lemma_combine_deterministic<V: VaultCapability>(
    v: &V,
    f1: Seq<u8>,
    f2: Seq<u8>,
    r1: CredentialView,
    r2: CredentialView,
)
    requires
        r1 == v.combine_spec(f1, f2),
        r2 == v.combine_spec(f1, f2),
    ensures
        r1 == r2,
{
}

/// A deterministic vault for tests and demonstrations: a proof of possession
/// is the key's own bytes, accepting an offer echoes its payload, and
/// combining fragments pairs the first fragment's bytes with a signature made
/// of the second fragment's bytes.
pub struct FakeVault;

impl VaultCapability for FakeVault {
    open spec fn verify_pop_spec(&self, public_key: Seq<u8>, proof: Seq<u8>) -> bool {
        proof == public_key
    }

    open spec fn combine_spec(&self, f1: Seq<u8>, f2: Seq<u8>) -> CredentialView {
        CredentialView { data: f1, signature: CredentialSignatureView::EdDSACurve25519(f2) }
    }

    fn verify_proof_of_possession(&self, public_key: &PublicKeyBytes, proof: &ProofBytes) -> (r:
        bool) {
        bytes_eq(&proof.0, &public_key.0)
    }

    fn accept_credential_offer(&self, offer: &CredentialOffer, issuer_key: &PublicKeyBytes) -> (r:
        Result<(CredentialRequest, CredentialFragment1), VaultError>) {
        if offer.payload.len() == 0 {
            Err(VaultError)
        } else {
            Ok(
                (
                    CredentialRequest(copy_bytes(&offer.offer_id.0)),
                    CredentialFragment1(copy_bytes(&offer.payload)),
                ),
            )
        }
    }

    fn combine_credential_fragments(&self, f1: CredentialFragment1, f2: CredentialFragment2) -> (r:
        Credential) {
        Credential {
            data: f1.0,
            signature: CredentialSignature::EdDSACurve25519(EdDSACurve25519Signature(f2.0)),
        }
    }

    fn present_credentials(
        &self,
        credentials: &Vec<Credential>,
        manifests: &Vec<PresentationManifest>,
        presentation_id: &OfferIdBytes,
    ) -> (r: Result<CredentialPresentation, VaultError>) {
        if credentials.len() == 0 || manifests.len() == 0 {
            return Err(VaultError);
        }
        let m = &manifests[0];
        let manifest = PresentationManifest {
            credential_schema: m.credential_schema,
            public_key: PublicKeyBytes(copy_bytes(&m.public_key.0)),
            revealed: slice_to_vec(m.revealed.as_slice()),
        };
        Ok(
            CredentialPresentation {
                presentation_id: OfferIdBytes(copy_bytes(&presentation_id.0)),
                manifest,
                payload: copy_bytes(&credentials[0].data),
            },
        )
    }
}

} // verus!
