use credentials::codec::{decode_credential, decode_credential_data, decode_versioned_data,
    encode_credential, encode_credential_data, encode_versioned_data};
use credentials::credential::{Attributes, Credential, CredentialData, CredentialSchemaIdentifier,
    CredentialSignature, EdDSACurve25519Signature, VersionedData};
use credentials::models::{ChangeHash, Identifier, TimestampInSeconds};

fn uint_item(v: u64) -> Vec<u8> {
    let mut out = vec![0x1bu8];
    out.extend_from_slice(&v.to_be_bytes());
    out
}

fn bytes_item(b: &[u8]) -> Vec<u8> {
    let mut out = vec![0x5bu8];
    out.extend_from_slice(&(b.len() as u64).to_be_bytes());
    out.extend_from_slice(b);
    out
}

fn map_head(n: u64) -> Vec<u8> {
    let mut out = vec![0xbbu8];
    out.extend_from_slice(&n.to_be_bytes());
    out
}

fn sample_data() -> CredentialData {
    CredentialData {
        subject: Some(Identifier(vec![7u8; 32])),
        subject_latest_change_hash: Some(ChangeHash(vec![9u8; 32])),
        subject_attributes: Attributes {
            schema: CredentialSchemaIdentifier(11),
            map: vec![
                ("city".to_string(), b"Berlin".to_vec()),
                ("name".to_string(), b"Alice".to_vec()),
            ],
        },
        created_at: TimestampInSeconds(1000),
        expires_at: TimestampInSeconds(2000),
    }
}

fn assert_same_data(a: &CredentialData, b: &CredentialData) {
    assert_eq!(
        a.subject.as_ref().map(|i| i.0.clone()),
        b.subject.as_ref().map(|i| i.0.clone())
    );
    assert_eq!(
        a.subject_latest_change_hash.as_ref().map(|h| h.0.clone()),
        b.subject_latest_change_hash.as_ref().map(|h| h.0.clone())
    );
    assert_eq!(a.subject_attributes.schema.0, b.subject_attributes.schema.0);
    assert_eq!(a.subject_attributes.map, b.subject_attributes.map);
    assert_eq!(a.created_at.0, b.created_at.0);
    assert_eq!(a.expires_at.0, b.expires_at.0);
}

#[test]
fn credential_data_round_trips() {
    let d = sample_data();
    let bytes = encode_credential_data(&d);
    let back = decode_credential_data(&bytes).expect("round trip must decode");
    assert_same_data(&d, &back);
}

#[test]
fn credential_data_round_trips_without_optional_fields() {
    let mut d = sample_data();
    d.subject = None;
    d.subject_latest_change_hash = None;
    let bytes = encode_credential_data(&d);
    let back = decode_credential_data(&bytes).expect("round trip must decode");
    assert_same_data(&d, &back);
}

#[test]
fn credential_round_trips() {
    let c = Credential {
        data: vec![1, 2, 3, 4],
        signature: CredentialSignature::EdDSACurve25519(EdDSACurve25519Signature(vec![5u8; 64])),
    };
    let bytes = encode_credential(&c);
    let back = decode_credential(&bytes).expect("round trip must decode");
    assert_eq!(back.data, c.data);
    match back.signature {
        CredentialSignature::EdDSACurve25519(s) => assert_eq!(s.0, vec![5u8; 64]),
        _ => panic!("wrong signature variant"),
    }
}

#[test]
fn versioned_data_round_trips_and_encodes_exactly() {
    let v = VersionedData { version: 1, data: vec![0xAB] };
    let bytes = encode_versioned_data(&v);
    let mut expected = map_head(2);
    expected.extend_from_slice(&uint_item(1));
    expected.extend_from_slice(&uint_item(1));
    expected.extend_from_slice(&uint_item(2));
    expected.extend_from_slice(&bytes_item(&[0xAB]));
    assert_eq!(bytes, expected);
    let back = decode_versioned_data(&bytes).expect("round trip must decode");
    assert_eq!(back.version, 1);
    assert_eq!(back.data, vec![0xAB]);
}

#[test]
fn attribute_key_fallback_substitutes_sentinel() {
    // An attribute map whose single wire key is not valid text.
    let mut attrs_map = map_head(1);
    attrs_map.extend_from_slice(&bytes_item(&[0xFF, 0xFE]));
    attrs_map.extend_from_slice(&bytes_item(b"value"));
    let mut attributes = map_head(2);
    attributes.extend_from_slice(&uint_item(1));
    attributes.extend_from_slice(&uint_item(11));
    attributes.extend_from_slice(&uint_item(2));
    attributes.extend_from_slice(&attrs_map);
    let mut bytes = map_head(3);
    bytes.extend_from_slice(&uint_item(3));
    bytes.extend_from_slice(&attributes);
    bytes.extend_from_slice(&uint_item(4));
    bytes.extend_from_slice(&uint_item(1000));
    bytes.extend_from_slice(&uint_item(5));
    bytes.extend_from_slice(&uint_item(2000));
    let d = decode_credential_data(&bytes).expect("fallback must not fail the decode");
    assert_eq!(d.subject_attributes.map.len(), 1);
    assert_eq!(d.subject_attributes.map[0].0, "expected a string");
    assert_eq!(d.subject_attributes.map[0].1, b"value".to_vec());
}

#[test]
fn unknown_trailing_field_is_ignored() {
    let v = VersionedData { version: 4, data: vec![1, 2] };
    let mut bytes = map_head(3);
    bytes.extend_from_slice(&uint_item(1));
    bytes.extend_from_slice(&uint_item(4));
    bytes.extend_from_slice(&uint_item(2));
    bytes.extend_from_slice(&bytes_item(&[1, 2]));
    bytes.extend_from_slice(&uint_item(9));
    bytes.extend_from_slice(&uint_item(77));
    let back = decode_versioned_data(&bytes).expect("unknown trailing field must be skipped");
    assert_eq!(back.version, v.version);
    assert_eq!(back.data, v.data);
}

#[test]
fn non_map_top_level_is_rejected() {
    let bytes = uint_item(7);
    assert!(decode_credential_data(&bytes).is_err());
}

#[test]
fn missing_required_field_is_rejected() {
    // A map holding only the attributes field: the timestamps are missing.
    let mut attributes = map_head(2);
    attributes.extend_from_slice(&uint_item(1));
    attributes.extend_from_slice(&uint_item(11));
    attributes.extend_from_slice(&uint_item(2));
    attributes.extend_from_slice(&map_head(0));
    let mut bytes = map_head(1);
    bytes.extend_from_slice(&uint_item(3));
    bytes.extend_from_slice(&attributes);
    assert!(decode_credential_data(&bytes).is_err());
}

#[test]
fn trailing_garbage_is_rejected() {
    let d = sample_data();
    let mut bytes = encode_credential_data(&d);
    bytes.push(0);
    assert!(decode_credential_data(&bytes).is_err());
}

#[test]
fn wrong_signature_length_is_rejected() {
    let c = Credential {
        data: vec![1],
        signature: CredentialSignature::EdDSACurve25519(EdDSACurve25519Signature(vec![5u8; 63])),
    };
    let bytes = encode_credential(&c);
    assert!(decode_credential(&bytes).is_err());
}

fn data_bytes_with_attr_map(attrs_map: &[u8], entries: u64) -> Vec<u8> {
    let mut attributes = map_head(2);
    attributes.extend_from_slice(&uint_item(1));
    attributes.extend_from_slice(&uint_item(11));
    attributes.extend_from_slice(&uint_item(2));
    attributes.extend_from_slice(&map_head(entries));
    attributes.extend_from_slice(attrs_map);
    let mut bytes = map_head(3);
    bytes.extend_from_slice(&uint_item(3));
    bytes.extend_from_slice(&attributes);
    bytes.extend_from_slice(&uint_item(4));
    bytes.extend_from_slice(&uint_item(1000));
    bytes.extend_from_slice(&uint_item(5));
    bytes.extend_from_slice(&uint_item(2000));
    bytes
}

#[test]
fn duplicate_attribute_keys_collapse_to_the_last() {
    let mut attrs_map = bytes_item(b"name");
    attrs_map.extend_from_slice(&bytes_item(b"a"));
    attrs_map.extend_from_slice(&bytes_item(b"name"));
    attrs_map.extend_from_slice(&bytes_item(b"b"));
    let bytes = data_bytes_with_attr_map(&attrs_map, 2);
    let d = decode_credential_data(&bytes).expect("colliding keys must not fail the decode");
    assert_eq!(d.subject_attributes.map.len(), 1);
    assert_eq!(d.subject_attributes.map[0].0, "name");
    assert_eq!(d.subject_attributes.map[0].1, b"b".to_vec());
}

#[test]
fn colliding_sentinel_keys_collapse_to_the_last() {
    // Two different non-text wire keys both fall back to the sentinel; the
    // later entry survives.
    let mut attrs_map = bytes_item(&[0xFF]);
    attrs_map.extend_from_slice(&bytes_item(b"first"));
    attrs_map.extend_from_slice(&bytes_item(&[0xFE]));
    attrs_map.extend_from_slice(&bytes_item(b"second"));
    let bytes = data_bytes_with_attr_map(&attrs_map, 2);
    let d = decode_credential_data(&bytes).expect("sentinel collision must not fail the decode");
    assert_eq!(d.subject_attributes.map.len(), 1);
    assert_eq!(d.subject_attributes.map[0].0, "expected a string");
    assert_eq!(d.subject_attributes.map[0].1, b"second".to_vec());
}

#[test]
fn sentinel_collides_with_a_literal_key() {
    // A text key that literally reads like the sentinel, then a non-text key:
    // both land under the sentinel, the later value winning.
    let mut attrs_map = bytes_item(b"expected a string");
    attrs_map.extend_from_slice(&bytes_item(b"text"));
    attrs_map.extend_from_slice(&bytes_item(&[0xFF, 0xFE]));
    attrs_map.extend_from_slice(&bytes_item(b"fallback"));
    let bytes = data_bytes_with_attr_map(&attrs_map, 2);
    let d = decode_credential_data(&bytes).expect("sentinel collision must not fail the decode");
    assert_eq!(d.subject_attributes.map.len(), 1);
    assert_eq!(d.subject_attributes.map[0].0, "expected a string");
    assert_eq!(d.subject_attributes.map[0].1, b"fallback".to_vec());
}

#[test]
fn decoded_attribute_keys_come_out_in_ascending_order() {
    let mut attrs_map = bytes_item(b"zeta");
    attrs_map.extend_from_slice(&bytes_item(b"1"));
    attrs_map.extend_from_slice(&bytes_item(b"alpha"));
    attrs_map.extend_from_slice(&bytes_item(b"2"));
    let bytes = data_bytes_with_attr_map(&attrs_map, 2);
    let d = decode_credential_data(&bytes).expect("must decode");
    assert_eq!(d.subject_attributes.map.len(), 2);
    assert_eq!(d.subject_attributes.map[0].0, "alpha");
    assert_eq!(d.subject_attributes.map[1].0, "zeta");
}

#[test]
fn unknown_leading_field_is_ignored() {
    // An unknown field (tag 9) standing before the known fields, carrying a
    // nested array value.
    let mut bytes = map_head(3);
    bytes.extend_from_slice(&uint_item(9));
    let mut arr = vec![0x9bu8];
    arr.extend_from_slice(&2u64.to_be_bytes());
    arr.extend_from_slice(&uint_item(5));
    arr.extend_from_slice(&bytes_item(b"x"));
    bytes.extend_from_slice(&arr);
    bytes.extend_from_slice(&uint_item(1));
    bytes.extend_from_slice(&uint_item(4));
    bytes.extend_from_slice(&uint_item(2));
    bytes.extend_from_slice(&bytes_item(&[1, 2]));
    let back = decode_versioned_data(&bytes).expect("unknown leading field must be skipped");
    assert_eq!(back.version, 4);
    assert_eq!(back.data, vec![1, 2]);
}

#[test]
fn validity_window_is_half_open() {
    let d = sample_data();
    assert!(!d.is_live_at(TimestampInSeconds(999)));
    assert!(d.is_live_at(TimestampInSeconds(1000)));
    assert!(d.is_live_at(TimestampInSeconds(1999)));
    assert!(!d.is_live_at(TimestampInSeconds(2000)));
}

#[test]
fn empty_validity_window_is_rejected() {
    let mut d = sample_data();
    d.created_at = TimestampInSeconds(2000);
    d.expires_at = TimestampInSeconds(2000);
    assert!(d.check_validity_window().is_err());
    assert!(!d.is_live_at(TimestampInSeconds(2000)));
    d.expires_at = TimestampInSeconds(2001);
    assert!(d.check_validity_window().is_ok());
}

#[test]
fn signed_bytes_are_the_stored_payload() {
    let c = Credential {
        data: vec![1, 2, 3],
        signature: CredentialSignature::EdDSACurve25519(EdDSACurve25519Signature(vec![0u8; 64])),
    };
    assert_eq!(c.signed_bytes(), &vec![1u8, 2, 3]);
}
