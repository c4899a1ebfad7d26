//! Protocol messages and transient values of the credential exchange: the
//! role-to-role message variants, the blinded-offer artifacts, the disclosure
//! manifest, the destinations a role sends to, and the exchange errors.

use vstd::prelude::*;
use crate::credential::CredentialSchemaIdentifier;
use crate::wire::be64;

verus! {

/// Public key bytes of an identity key.
#[derive(Clone, Debug)]
pub struct PublicKeyBytes(pub Vec<u8>);

impl View for PublicKeyBytes {
    type V = Seq<u8>;

    open spec fn view(&self) -> Seq<u8> {
        self.0@
    }
}

/// Proof-of-possession bytes accompanying a public key.
#[derive(Clone, Debug)]
pub struct ProofBytes(pub Vec<u8>);

impl View for ProofBytes {
    type V = Seq<u8>;

    open spec fn view(&self) -> Seq<u8> {
        self.0@
    }
}

/// The single-use identifier correlating an offer or a presentation.
#[derive(Clone, Debug)]
pub struct OfferIdBytes(pub Vec<u8>);

impl View for OfferIdBytes {
    type V = Seq<u8>;

    open spec fn view(&self) -> Seq<u8> {
        self.0@
    }
}

/// An issuer's blinded offer: its correlating identifier and the masked
/// payload.
#[derive(Clone, Debug)]
pub struct CredentialOffer {
    /// Correlates the later response to this offer.
    pub offer_id: OfferIdBytes,
    /// The blinded offer payload.
    pub payload: Vec<u8>,
}

/// Abstract value of a [`CredentialOffer`].
pub struct CredentialOfferView {
    /// The correlating identifier.
    pub offer_id: Seq<u8>,
    /// The blinded payload.
    pub payload: Seq<u8>,
}

impl View for CredentialOffer {
    type V = CredentialOfferView;

    open spec fn view(&self) -> CredentialOfferView {
        CredentialOfferView { offer_id: self.offer_id@, payload: self.payload@ }
    }
}

/// The holder's answer to a blinded offer.
#[derive(Clone, Debug)]
pub struct CredentialRequest(pub Vec<u8>);

impl View for CredentialRequest {
    type V = Seq<u8>;

    open spec fn view(&self) -> Seq<u8> {
        self.0@
    }
}

/// The fragment the holder retains when accepting an offer.
#[derive(Clone, Debug)]
pub struct CredentialFragment1(pub Vec<u8>);

impl View for CredentialFragment1 {
    type V = Seq<u8>;

    open spec fn view(&self) -> Seq<u8> {
        self.0@
    }
}

/// The complementary fragment the issuer returns.
#[derive(Clone, Debug)]
pub struct CredentialFragment2(pub Vec<u8>);

impl View for CredentialFragment2 {
    type V = Seq<u8>;

    open spec fn view(&self) -> Seq<u8> {
        self.0@
    }
}

/// The agreed description of a presentation: which schema, which issuer key,
/// and which attribute indices are revealed.
#[derive(Clone, Debug)]
pub struct PresentationManifest {
    /// The schema the presented credential must carry.
    pub credential_schema: CredentialSchemaIdentifier,
    /// The issuer key the presented credential must be signed by.
    pub public_key: PublicKeyBytes,
    /// The attribute indices that are revealed.
    pub revealed: Vec<usize>,
}

/// Abstract value of a [`PresentationManifest`].
pub struct PresentationManifestView {
    /// The expected schema.
    pub credential_schema: u64,
    /// The expected issuer key.
    pub public_key: Seq<u8>,
    /// The revealed attribute indices.
    pub revealed: Seq<usize>,
}

impl View for PresentationManifest {
    type V = PresentationManifestView;

    open spec fn view(&self) -> PresentationManifestView {
        PresentationManifestView {
            credential_schema: self.credential_schema.0,
            public_key: self.public_key@,
            revealed: self.revealed@,
        }
    }
}

/// The disclosure proof a holder ships to a verifier: its own fresh
/// single-use identifier, the manifest it answers, and the disclosed payload.
#[derive(Clone, Debug)]
pub struct CredentialPresentation {
    /// The presentation's own single-use identifier.
    pub presentation_id: OfferIdBytes,
    /// The manifest this presentation answers.
    pub manifest: PresentationManifest,
    /// The disclosed payload.
    pub payload: Vec<u8>,
}

/// Abstract value of a [`CredentialPresentation`].
pub struct CredentialPresentationView {
    /// The single-use identifier.
    pub presentation_id: Seq<u8>,
    /// The answered manifest.
    pub manifest: PresentationManifestView,
    /// The disclosed payload.
    pub payload: Seq<u8>,
}

impl View for CredentialPresentation {
    type V = CredentialPresentationView;

    open spec fn view(&self) -> CredentialPresentationView {
        CredentialPresentationView {
            presentation_id: self.presentation_id@,
            manifest: self.manifest@,
            payload: self.payload@,
        }
    }
}

/// A protocol message exchanged between the roles.
#[derive(Clone, Debug)]
pub enum CredentialMessage {
    /// Holder to issuer: request to begin.
    CredentialConnection,
    /// Issuer to holder: its public key and proof of possession.
    CredentialIssuer {
        /// The issuer's public key.
        public_key: PublicKeyBytes,
        /// The proof that the issuer controls the matching private key.
        proof: ProofBytes,
    },
    /// Holder to issuer: request an offer.
    NewCredential,
    /// Issuer to holder: the blinded offer.
    CredentialOffer(CredentialOffer),
    /// Holder to issuer: the answer to the offer.
    CredentialRequest(CredentialRequest),
    /// Issuer to holder: the completing fragment.
    CredentialResponse(CredentialFragment2),
    /// Holder to verifier: the disclosure proof.
    Presentation(CredentialPresentation),
}

/// Where an outbound message goes.
#[derive(Clone, Copy, Debug, PartialEq, Eq, Structural)]
pub enum Destination {
    /// The route to the issuer.
    Issuer,
    /// The reply route of the message being handled.
    Reply,
    /// The route to the verifier.
    Verifier,
}

/// An outbound message and its destination.
#[derive(Clone, Debug)]
pub struct Outgoing {
    /// Where to send.
    pub destination: Destination,
    /// What to send.
    pub message: CredentialMessage,
}

/// Why a credential exchange failed.
#[derive(Clone, Copy, Debug, PartialEq, Eq, Structural)]
pub enum ExchangeError {
    /// The proof-of-possession check failed; fatal to the current exchange.
    InvalidProof,
    /// A message arrived requiring state that was never established; a
    /// protocol violation, fatal to the exchange.
    InvalidInternalState,
    /// The vault could not build the presentation.
    PresentationFailed,
}

/// The single-use identifier derived from a millisecond timestamp: 24 zero
/// bytes, then the milliseconds in big-endian form.
pub open spec fn spec_offer_id(n: u64) -> Seq<u8> {
    Seq::new(24, |_i: int| 0u8) + be64(n)
}

/// Derives a fresh 32-byte single-use identifier from a millisecond
/// timestamp: zeros padded with the milliseconds in big-endian form.
pub fn offer_id_from_millis(n: u64) -> (r: OfferIdBytes)
    ensures
        r@ == spec_offer_id(n),
        r@.len() == 32,
{
    let mut v: Vec<u8> = Vec::new();
    let mut k: usize = 0;
    while k < 24
        invariant
            0 <= k <= 24,
            v@.len() == k,
            forall|j: int| 0 <= j < k ==> v@[j] == 0u8,
        decreases 24 - k,
    {
        v.push(0u8);
        k = k + 1;
    }
    v.push(((n >> 56) & 0xff) as u8);
    v.push(((n >> 48) & 0xff) as u8);
    v.push(((n >> 40) & 0xff) as u8);
    v.push(((n >> 32) & 0xff) as u8);
    v.push(((n >> 24) & 0xff) as u8);
    v.push(((n >> 16) & 0xff) as u8);
    v.push(((n >> 8) & 0xff) as u8);
    v.push((n & 0xff) as u8);
    proof {
        assert(v@ =~= spec_offer_id(n));
    }
    OfferIdBytes(v)
}

} // verus!
