use credentials::credential::CredentialSchemaIdentifier;
use credentials::holder::{check_presentation, Holder};
use credentials::models::{Identifier, Purpose, TimestampInSeconds};
use credentials::protocol::{offer_id_from_millis, CredentialFragment2, CredentialMessage,
    CredentialOffer, Destination, ExchangeError, OfferIdBytes, PresentationManifest, ProofBytes,
    PublicKeyBytes};
use credentials::purpose_key_options::PurposeKeyOptions;
use credentials::vault::{FakeVault, VaultCapability};

fn schema() -> CredentialSchemaIdentifier {
    CredentialSchemaIdentifier(42)
}

fn key() -> PublicKeyBytes {
    PublicKeyBytes(vec![3u8; 32])
}

fn offer() -> CredentialOffer {
    CredentialOffer { offer_id: OfferIdBytes(vec![8u8; 32]), payload: vec![1, 2, 3] }
}

#[test]
fn offer_before_issuer_key_fails_without_a_request() {
    let mut holder = Holder::new(FakeVault, schema());
    let r = holder.handle_message(CredentialMessage::CredentialOffer(offer()), &offer_id_from_millis(0));
    assert_eq!(r.unwrap_err(), ExchangeError::InvalidInternalState);
    assert!(holder.issuer_pubkey.is_none());
    assert!(holder.frag1.is_none());
}

#[test]
fn invalid_proof_fails_and_stores_no_key() {
    let mut holder = Holder::new(FakeVault, schema());
    // The deterministic vault accepts a proof exactly when it equals the key.
    let msg = CredentialMessage::CredentialIssuer {
        public_key: key(),
        proof: ProofBytes(vec![4u8; 32]),
    };
    let r = holder.handle_message(msg, &offer_id_from_millis(0));
    assert_eq!(r.unwrap_err(), ExchangeError::InvalidProof);
    assert!(holder.issuer_pubkey.is_none());
}

#[test]
fn valid_proof_stores_key_and_requests_a_credential() {
    let mut holder = Holder::new(FakeVault, schema());
    let msg = CredentialMessage::CredentialIssuer {
        public_key: key(),
        proof: ProofBytes(vec![3u8; 32]),
    };
    let msgs = holder.handle_message(msg, &offer_id_from_millis(0)).unwrap();
    assert_eq!(msgs.len(), 1);
    assert!(matches!(msgs[0].destination, Destination::Reply));
    assert!(matches!(msgs[0].message, CredentialMessage::NewCredential));
    assert_eq!(holder.issuer_pubkey.as_ref().unwrap().0, vec![3u8; 32]);
}

#[test]
fn combine_credential_fragments_is_deterministic() {
    let vault = FakeVault;
    let c1 = vault.combine_credential_fragments(
        credentials::protocol::CredentialFragment1(vec![1, 2]),
        CredentialFragment2(vec![7u8; 64]),
    );
    let c2 = vault.combine_credential_fragments(
        credentials::protocol::CredentialFragment1(vec![1, 2]),
        CredentialFragment2(vec![7u8; 64]),
    );
    assert_eq!(credentials::codec::encode_credential(&c1), credentials::codec::encode_credential(&c2));
}

#[test]
fn end_to_end_exchange_reaches_an_accepting_verifier() {
    let mut holder = Holder::new(FakeVault, schema());
    let start = holder.initialize();
    assert!(matches!(start[0].destination, Destination::Issuer));
    assert!(matches!(start[0].message, CredentialMessage::CredentialConnection));

    // The issuer proves possession of its key.
    let msgs = holder
        .handle_message(
            CredentialMessage::CredentialIssuer { public_key: key(), proof: ProofBytes(vec![3u8; 32]) },
            &offer_id_from_millis(1),
        )
        .unwrap();
    assert!(matches!(msgs[0].message, CredentialMessage::NewCredential));

    // The issuer answers with a blinded offer; the holder accepts it.
    let msgs = holder
        .handle_message(CredentialMessage::CredentialOffer(offer()), &offer_id_from_millis(2))
        .unwrap();
    assert_eq!(msgs.len(), 1);
    assert!(matches!(msgs[0].message, CredentialMessage::CredentialRequest(_)));
    assert!(holder.frag1.is_some());

    // The issuer returns the completing fragment; the holder combines,
    // builds a presentation revealing attribute index 1, and ships it.
    let fresh = offer_id_from_millis(77);
    let msgs = holder
        .handle_message(
            CredentialMessage::CredentialResponse(CredentialFragment2(vec![9u8; 64])),
            &fresh,
        )
        .unwrap();
    assert_eq!(msgs.len(), 1);
    assert!(matches!(msgs[0].destination, Destination::Verifier));
    let p = match &msgs[0].message {
        CredentialMessage::Presentation(p) => p,
        _ => panic!("expected a presentation"),
    };
    assert_eq!(p.manifest.revealed, vec![1usize]);
    assert_eq!(p.manifest.credential_schema.0, 42);
    assert_eq!(p.manifest.public_key.0, vec![3u8; 32]);
    assert_eq!(p.presentation_id.0, fresh.0);
    let agreed = PresentationManifest {
        credential_schema: schema(),
        public_key: key(),
        revealed: vec![1],
    };
    assert!(check_presentation(&agreed, p));
    let other = PresentationManifest {
        credential_schema: schema(),
        public_key: PublicKeyBytes(vec![5u8; 32]),
        revealed: vec![1],
    };
    assert!(!check_presentation(&other, p));
    let narrower = PresentationManifest {
        credential_schema: schema(),
        public_key: key(),
        revealed: vec![1, 2],
    };
    assert!(!check_presentation(&narrower, p));
    assert!(holder.credential.is_some());
    assert_eq!(holder.credential.as_ref().unwrap().data, vec![1, 2, 3]);
    assert_eq!(holder.offer_id.as_ref().unwrap().0, fresh.0);
}

#[test]
fn invalid_proof_terminates_the_exchange_before_the_verifier() {
    let mut holder = Holder::new(FakeVault, schema());
    holder.initialize();
    let r = holder.handle_message(
        CredentialMessage::CredentialIssuer { public_key: key(), proof: ProofBytes(vec![0u8; 32]) },
        &offer_id_from_millis(1),
    );
    assert_eq!(r.unwrap_err(), ExchangeError::InvalidProof);
    // The exchange is over: no key, no fragment, no credential, and the
    // later response is dropped without contacting the verifier.
    let msgs = holder
        .handle_message(
            CredentialMessage::CredentialResponse(CredentialFragment2(vec![9u8; 64])),
            &offer_id_from_millis(2),
        )
        .unwrap();
    assert!(msgs.is_empty());
    assert!(holder.credential.is_none());
    assert!(holder.offer_id.is_none());
}

#[test]
fn response_without_a_fragment_is_dropped() {
    let mut holder = Holder::new(FakeVault, schema());
    let msgs = holder
        .handle_message(
            CredentialMessage::CredentialResponse(CredentialFragment2(vec![1u8; 64])),
            &offer_id_from_millis(5),
        )
        .unwrap();
    assert!(msgs.is_empty());
    assert!(holder.credential.is_none());
}

#[test]
fn unexpected_messages_are_ignored() {
    let mut holder = Holder::new(FakeVault, schema());
    let msgs = holder.handle_message(CredentialMessage::NewCredential, &offer_id_from_millis(0)).unwrap();
    assert!(msgs.is_empty());
    assert!(holder.issuer_pubkey.is_none());
}

#[test]
fn offer_id_is_zero_padded_big_endian_millis() {
    let id = offer_id_from_millis(0x0102030405060708);
    assert_eq!(id.0.len(), 32);
    assert_eq!(&id.0[..24], &[0u8; 24]);
    assert_eq!(&id.0[24..], &[1u8, 2, 3, 4, 5, 6, 7, 8]);
}

#[test]
fn purpose_key_options_expose_their_fields() {
    let opts = PurposeKeyOptions::new(
        Identifier(vec![1, 2, 3]),
        Purpose::Credentials,
        "key-handle".to_string(),
        TimestampInSeconds(10),
        TimestampInSeconds(20),
    );
    assert_eq!(opts.identifier().0, vec![1, 2, 3]);
    assert!(matches!(opts.purpose(), Purpose::Credentials));
    assert_eq!(opts.key(), "key-handle");
    assert_eq!(opts.created_at().0, 10);
    assert_eq!(opts.expires_at().0, 20);
}
