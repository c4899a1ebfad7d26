//! The credential data model: the signed wire artifact, its semantic content,
//! the attribute claim set, and the temporal-validity rules.

use vstd::prelude::*;
use vstd::utf8::{encode_utf8, encode_utf8_decode_utf8};
use crate::models::{ChangeHash, Identifier, TimestampInSeconds};

verus! {

/// An EdDSA signature using Curve 25519: 64 signature bytes.
#[derive(Clone, Debug)]
pub struct EdDSACurve25519Signature(pub Vec<u8>);

/// An ECDSA signature using SHA-256 and Curve P-256: 64 signature bytes.
#[derive(Clone, Debug)]
pub struct ECDSASHA256CurveP256Signature(pub Vec<u8>);

/// Signature over the `data` bytes of a [`Credential`], tagged with its
/// scheme. The scheme tag is part of the wire encoding, never inferred.
#[derive(Clone, Debug)]
pub enum CredentialSignature {
    /// An EdDSA signature using Curve 25519.
    EdDSACurve25519(EdDSACurve25519Signature),
    /// An ECDSA signature using SHA-256 and Curve P-256.
    ECDSASHA256CurveP256(ECDSASHA256CurveP256Signature),
}

/// Abstract value of a [`CredentialSignature`]: the scheme and its bytes.
pub enum CredentialSignatureView {
    /// An EdDSA signature using Curve 25519.
    EdDSACurve25519(Seq<u8>),
    /// An ECDSA signature using SHA-256 and Curve P-256.
    ECDSASHA256CurveP256(Seq<u8>),
}

impl View for CredentialSignature {
    type V = CredentialSignatureView;

    open spec fn view(&self) -> CredentialSignatureView {
        match self {
            CredentialSignature::EdDSACurve25519(s) => CredentialSignatureView::EdDSACurve25519(
                s.0@,
            ),
            CredentialSignature::ECDSASHA256CurveP256(
                s,
            ) => CredentialSignatureView::ECDSASHA256CurveP256(s.0@),
        }
    }
}

/// A signature is well formed when it carries exactly 64 bytes.
pub open spec fn valid_signature(s: CredentialSignatureView) -> bool {
    match s {
        CredentialSignatureView::EdDSACurve25519(b) => b.len() == 64,
        CredentialSignatureView::ECDSASHA256CurveP256(b) => b.len() == 64,
    }
}

/// Credential: the wire artifact exchanged and stored.
///
/// `signature` always covers exactly the bytes in `data`; a consumer must
/// verify against these bytes as they stand, never a re-serialized copy.
#[derive(Clone, Debug)]
pub struct Credential {
    /// Serialized [`VersionedData`] whose `data` is a serialized
    /// [`CredentialData`].
    pub data: Vec<u8>,
    /// Signature over the `data` field.
    pub signature: CredentialSignature,
}

/// Abstract value of a [`Credential`].
pub struct CredentialView {
    /// The signed payload bytes.
    pub data: Seq<u8>,
    /// The signature over `data`.
    pub signature: CredentialSignatureView,
}

impl View for Credential {
    type V = CredentialView;

    open spec fn view(&self) -> CredentialView {
        CredentialView { data: self.data@, signature: self.signature@ }
    }
}

impl Credential {
    /// The exact bytes a signature check must run over: the stored payload
    /// bytes, never a re-encoded copy.
    pub fn signed_bytes(&self) -> (r: &Vec<u8>)
        ensures
            r@ == self@.data,
    {
        &self.data
    }
}

/// Versioned envelope wrapping a serialized [`CredentialData`]: versioning is
/// carried here, not inside the data, so the inner schema can evolve
/// independently of the signature-coverage boundary.
#[derive(Clone, Debug)]
pub struct VersionedData {
    /// Version of the wrapped payload.
    pub version: u64,
    /// The wrapped serialized payload.
    pub data: Vec<u8>,
}

/// Abstract value of a [`VersionedData`].
pub struct VersionedDataView {
    /// Version of the wrapped payload.
    pub version: u64,
    /// The wrapped serialized payload.
    pub data: Seq<u8>,
}

impl View for VersionedData {
    type V = VersionedDataView;

    open spec fn view(&self) -> VersionedDataView {
        VersionedDataView { version: self.version, data: self.data@ }
    }
}

/// Number that determines which keys and values to expect in [`Attributes`].
/// Encodes as a bare number, not as a nested structure.
#[derive(Clone, Copy, Debug, PartialEq, Eq, Structural)]
pub struct CredentialSchemaIdentifier(pub u64);

/// The claim set an issuer attests about a subject.
#[derive(Clone, Debug)]
pub struct Attributes {
    /// Selects which attribute keys are expected; consumers must not
    /// interpret `map` without agreeing on the schema.
    pub schema: CredentialSchemaIdentifier,
    /// Attribute name to attribute value, kept in ascending order of the
    /// keys' text bytes with keys unique, as a tree map keyed by text keeps
    /// them. The wire carries byte-sequence keys; decoding converts them to
    /// text, substituting a sentinel string for a key that is not valid text.
    pub map: Vec<(String, Vec<u8>)>,
}

/// Abstract value of [`Attributes`].
pub struct AttributesView {
    /// The schema identifier.
    pub schema: u64,
    /// The attribute entries in order.
    pub map: Seq<(Seq<char>, Seq<u8>)>,
}

impl View for Attributes {
    type V = AttributesView;

    open spec fn view(&self) -> AttributesView {
        AttributesView {
            schema: self.schema.0,
            map: Seq::new(self.map@.len(), |i: int| (self.map@[i].0@, self.map@[i].1@)),
        }
    }
}

/// Attribute entries are well formed when their keys are pairwise distinct.
pub open spec fn unique_keys(map: Seq<(Seq<char>, Seq<u8>)>) -> bool {
    forall|i: int, j: int| 0 <= i < j < map.len() ==> map[i].0 != map[j].0
}

/// Strict lexicographic order on byte sequences.
pub open spec fn bytes_lt(a: Seq<u8>, b: Seq<u8>) -> bool
    decreases a.len() + b.len(),
{
    if b.len() == 0 {
        false
    } else if a.len() == 0 {
        true
    } else if a[0] < b[0] {
        true
    } else if a[0] > b[0] {
        false
    } else {
        bytes_lt(a.drop_first(), b.drop_first())
    }
}

/// The order attribute keys are kept in: by their text bytes, the order a
/// tree map keyed by text keeps.
pub open spec fn key_lt(a: Seq<char>, b: Seq<char>) -> bool {
    bytes_lt(encode_utf8(a), encode_utf8(b))
}

/// Attribute entries are in map order when their keys are strictly
/// ascending.
pub open spec fn sorted_keys(map: Seq<(Seq<char>, Seq<u8>)>) -> bool {
    forall|i: int, j: int| 0 <= i < j < map.len() ==> key_lt(map[i].0, map[j].0)
}

/// Inserts an attribute entry into entries kept in ascending key order: an
/// entry with an equal key is replaced, a new key takes its ordered place.
pub open spec fn map_insert(
    m: Seq<(Seq<char>, Seq<u8>)>,
    k: Seq<char>,
    v: Seq<u8>,
) -> Seq<(Seq<char>, Seq<u8>)>
    decreases m.len(),
{
    if m.len() == 0 {
        seq![(k, v)]
    } else if key_lt(k, m[0].0) {
        seq![(k, v)] + m
    } else if k == m[0].0 {
        seq![(k, v)] + m.drop_first()
    } else {
        seq![m[0]] + map_insert(m.drop_first(), k, v)
    }
}

/// Folds wire-order entries into the key-ordered map, a later entry
/// overwriting an earlier one with the same key.
pub open spec fn fold_pairs(raw: Seq<(Seq<char>, Seq<u8>)>) -> Seq<(Seq<char>, Seq<u8>)>
    decreases raw.len(),
{
    if raw.len() == 0 {
        Seq::empty()
    } else {
        map_insert(fold_pairs(raw.drop_last()), raw.last().0, raw.last().1)
    }
}

proof fn lemma_bytes_lt_irrefl(a: Seq<u8>)
    ensures
        !bytes_lt(a, a),
    decreases a.len(),
{
    if a.len() > 0 {
        lemma_bytes_lt_irrefl(a.drop_first());
    }
}

proof fn lemma_bytes_lt_asymm(a: Seq<u8>, b: Seq<u8>)
    requires
        bytes_lt(a, b),
    ensures
        !bytes_lt(b, a),
    decreases a.len() + b.len(),
{
    if a.len() > 0 && b.len() > 0 && a[0] == b[0] {
        lemma_bytes_lt_asymm(a.drop_first(), b.drop_first());
    }
}

proof fn lemma_bytes_lt_connex(a: Seq<u8>, b: Seq<u8>)
    requires
        a != b,
    ensures
        bytes_lt(a, b) || bytes_lt(b, a),
    decreases a.len() + b.len(),
{
    if a.len() == 0 && b.len() == 0 {
        assert(a =~= b);
    } else if a.len() == 0 || b.len() == 0 {
    } else if a[0] == b[0] {
        assert(a.drop_first() != b.drop_first()) by {
            if a.drop_first() == b.drop_first() {
                assert(a.drop_first().len() == a.len() - 1);
                assert(b.drop_first().len() == b.len() - 1);
                assert(a.len() == b.len());
                assert forall|i: int| 0 <= i < a.len() implies a[i] == b[i] by {
                    if i > 0 {
                        assert(a.drop_first()[i - 1] == a[i]);
                        assert(b.drop_first()[i - 1] == b[i]);
                        assert(a.drop_first()[i - 1] == b.drop_first()[i - 1]);
                    }
                }
                assert(a =~= b);
            }
        }
        lemma_bytes_lt_connex(a.drop_first(), b.drop_first());
    }
}

proof fn lemma_bytes_lt_trans(a: Seq<u8>, b: Seq<u8>, c: Seq<u8>)
    requires
        bytes_lt(a, b),
        bytes_lt(b, c),
    ensures
        bytes_lt(a, c),
    decreases a.len() + b.len() + c.len(),
{
    if a.len() > 0 && a[0] == b[0] && b[0] == c[0] {
        lemma_bytes_lt_trans(a.drop_first(), b.drop_first(), c.drop_first());
    }
}

/// The key order is a strict total order: it never relates a key to itself,
/// never holds in both directions, relates every two distinct keys, and
/// composes.
pub proof fn lemma_key_lt_order(a: Seq<char>, b: Seq<char>, c: Seq<char>)
    ensures
        !key_lt(a, a),
        key_lt(a, b) ==> !key_lt(b, a) && a != b,
        a != b ==> key_lt(a, b) || key_lt(b, a),
        key_lt(a, b) && key_lt(b, c) ==> key_lt(a, c),
{
    lemma_bytes_lt_irrefl(encode_utf8(a));
    if key_lt(a, b) {
        lemma_bytes_lt_asymm(encode_utf8(a), encode_utf8(b));
        if key_lt(b, c) {
            lemma_bytes_lt_trans(encode_utf8(a), encode_utf8(b), encode_utf8(c));
        }
    }
    if a != b {
        assert(encode_utf8(a) != encode_utf8(b)) by {
            encode_utf8_decode_utf8(a);
            encode_utf8_decode_utf8(b);
        }
        lemma_bytes_lt_connex(encode_utf8(a), encode_utf8(b));
    }
}

/// Entries in map order have pairwise distinct keys.
pub proof fn lemma_sorted_keys_unique(map: Seq<(Seq<char>, Seq<u8>)>)
    requires
        sorted_keys(map),
    ensures
        unique_keys(map),
{
    assert forall|i: int, j: int| 0 <= i < j < map.len() implies map[i].0 != map[j].0 by {
        lemma_key_lt_order(map[i].0, map[j].0, map[j].0);
    }
}

proof fn lemma_map_insert_key_bound(m: Seq<(Seq<char>, Seq<u8>)>, k: Seq<char>, v: Seq<u8>, lo: Seq<char>)
    requires
        forall|i: int| 0 <= i < m.len() ==> key_lt(lo, #[trigger] m[i].0),
        key_lt(lo, k),
    ensures
        forall|j: int|
            0 <= j < map_insert(m, k, v).len() ==> key_lt(lo, #[trigger] map_insert(m, k, v)[j].0),
    decreases m.len(),
{
    let r = map_insert(m, k, v);
    if m.len() == 0 {
    } else if key_lt(k, m[0].0) {
        assert forall|j: int| 0 <= j < r.len() implies key_lt(lo, r[j].0) by {
            if j > 0 {
                assert(r[j] == m[j - 1]);
            }
        }
    } else if k == m[0].0 {
        assert forall|j: int| 0 <= j < r.len() implies key_lt(lo, r[j].0) by {
            if j > 0 {
                assert(r[j] == m.drop_first()[j - 1] && m.drop_first()[j - 1] == m[j]);
            }
        }
    } else {
        assert(forall|i: int| 0 <= i < m.drop_first().len() ==> key_lt(lo, #[trigger] m.drop_first()[i].0));
        lemma_map_insert_key_bound(m.drop_first(), k, v, lo);
        assert forall|j: int| 0 <= j < r.len() implies key_lt(lo, r[j].0) by {
            if j > 0 {
                assert(r[j] == map_insert(m.drop_first(), k, v)[j - 1]);
            }
        }
    }
}

/// Inserting keeps entries in map order and grows them by at most one.
pub proof fn lemma_map_insert_sorted(m: Seq<(Seq<char>, Seq<u8>)>, k: Seq<char>, v: Seq<u8>)
    requires
        sorted_keys(m),
    ensures
        sorted_keys(map_insert(m, k, v)),
        map_insert(m, k, v).len() <= m.len() + 1,
    decreases m.len(),
{
    if m.len() == 0 {
    } else if key_lt(k, m[0].0) {
        let r = seq![(k, v)] + m;
        assert forall|i: int, j: int| 0 <= i < j < r.len() implies key_lt(r[i].0, r[j].0) by {
            if i == 0 {
                if j > 1 {
                    lemma_key_lt_order(k, m[0].0, m[j - 1].0);
                }
            }
        }
    } else if k == m[0].0 {
        let r = seq![(k, v)] + m.drop_first();
        assert forall|i: int, j: int| 0 <= i < j < r.len() implies key_lt(r[i].0, r[j].0) by {
            if i == 0 {
                assert(key_lt(m[0].0, m[j].0));
            }
        }
    } else {
        lemma_key_lt_order(k, m[0].0, m[0].0);
        assert(key_lt(m[0].0, k));
        assert(sorted_keys(m.drop_first())) by {
            assert(forall|i: int, j: int|
                0 <= i < j < m.drop_first().len() ==> key_lt(
                    #[trigger] m.drop_first()[i].0,
                    #[trigger] m.drop_first()[j].0,
                ));
        }
        lemma_map_insert_sorted(m.drop_first(), k, v);
        assert(forall|i: int| 0 <= i < m.drop_first().len() ==> key_lt(m[0].0, #[trigger] m.drop_first()[i].0));
        lemma_map_insert_key_bound(m.drop_first(), k, v, m[0].0);
        let r = seq![m[0]] + map_insert(m.drop_first(), k, v);
        assert forall|i: int, j: int| 0 <= i < j < r.len() implies key_lt(r[i].0, r[j].0) by {
            if i > 0 {
                assert(key_lt(map_insert(m.drop_first(), k, v)[i - 1].0, map_insert(m.drop_first(), k, v)[j - 1].0));
            } else {
                assert(key_lt(m[0].0, map_insert(m.drop_first(), k, v)[j - 1].0));
            }
        }
    }
}

/// Inserting a key above all present keys appends the entry.
pub proof fn lemma_map_insert_append(m: Seq<(Seq<char>, Seq<u8>)>, k: Seq<char>, v: Seq<u8>)
    requires
        forall|i: int| 0 <= i < m.len() ==> key_lt(#[trigger] m[i].0, k),
    ensures
        map_insert(m, k, v) == m.push((k, v)),
    decreases m.len(),
{
    if m.len() == 0 {
        assert(map_insert(m, k, v) =~= m.push((k, v)));
    } else {
        lemma_key_lt_order(m[0].0, k, k);
        assert(!key_lt(k, m[0].0) && k != m[0].0);
        assert(forall|i: int| 0 <= i < m.drop_first().len() ==> key_lt(#[trigger] m.drop_first()[i].0, k));
        lemma_map_insert_append(m.drop_first(), k, v);
        assert(seq![m[0]] + m.drop_first().push((k, v)) =~= m.push((k, v)));
    }
}

/// Folding entries already in map order gives them back unchanged.
pub proof fn lemma_fold_pairs_of_sorted(m: Seq<(Seq<char>, Seq<u8>)>)
    requires
        sorted_keys(m),
    ensures
        fold_pairs(m) == m,
    decreases m.len(),
{
    if m.len() > 0 {
        let front = m.drop_last();
        assert(sorted_keys(front)) by {
            assert(forall|i: int, j: int|
                0 <= i < j < front.len() ==> key_lt(#[trigger] front[i].0, #[trigger] front[j].0));
        }
        lemma_fold_pairs_of_sorted(front);
        assert(forall|i: int| 0 <= i < front.len() ==> key_lt(#[trigger] front[i].0, m.last().0));
        lemma_map_insert_append(front, m.last().0, m.last().1);
        assert(front.push((m.last().0, m.last().1)) =~= m);
    }
}

/// Folded entries are in map order, with no more entries than arrived.
pub proof fn lemma_fold_pairs_sorted(raw: Seq<(Seq<char>, Seq<u8>)>)
    ensures
        sorted_keys(fold_pairs(raw)),
        fold_pairs(raw).len() <= raw.len(),
    decreases raw.len(),
{
    if raw.len() > 0 {
        lemma_fold_pairs_sorted(raw.drop_last());
        lemma_map_insert_sorted(fold_pairs(raw.drop_last()), raw.last().0, raw.last().1);
    }
}

/// Data inside a [`Credential`], only ever accessed after removing the
/// versioning wrapper.
#[derive(Clone, Debug)]
pub struct CredentialData {
    /// To whom this credential was issued; absent for credentials not bound
    /// to a subject.
    pub subject: Option<Identifier>,
    /// Latest subject [`ChangeHash`] known to the issuer at issuance time;
    /// lets a verifier detect key rotation after issuance.
    pub subject_latest_change_hash: Option<ChangeHash>,
    /// Attributes the issuer attests about the subject.
    pub subject_attributes: Attributes,
    /// Creation timestamp (UTC).
    pub created_at: TimestampInSeconds,
    /// Expiration timestamp (UTC); must lie strictly after `created_at`.
    pub expires_at: TimestampInSeconds,
}

/// Abstract value of [`CredentialData`].
pub struct CredentialDataView {
    /// The subject identifier, if any.
    pub subject: Option<Seq<u8>>,
    /// The pinned change hash, if any.
    pub subject_latest_change_hash: Option<Seq<u8>>,
    /// The attested attributes.
    pub subject_attributes: AttributesView,
    /// Creation timestamp.
    pub created_at: u64,
    /// Expiration timestamp.
    pub expires_at: u64,
}

impl View for CredentialData {
    type V = CredentialDataView;

    open spec fn view(&self) -> CredentialDataView {
        CredentialDataView {
            subject: match self.subject {
                Some(ref s) => Some(s@),
                None => None,
            },
            subject_latest_change_hash: match self.subject_latest_change_hash {
                Some(ref h) => Some(h@),
                None => None,
            },
            subject_attributes: self.subject_attributes@,
            created_at: self.created_at@,
            expires_at: self.expires_at@,
        }
    }
}

/// A credential's content is well formed when its validity window is
/// non-empty and its attribute entries are in map order (which makes their
/// keys unique).
pub open spec fn valid_credential_data(d: CredentialDataView) -> bool {
    &&& d.expires_at > d.created_at
    &&& sorted_keys(d.subject_attributes.map)
}

/// A credential's content is live at `now` exactly when
/// `created_at <= now < expires_at`.
pub open spec fn spec_is_live_at(d: CredentialDataView, now: u64) -> bool {
    d.created_at <= now < d.expires_at
}

impl CredentialData {
    /// Temporal validity: the credential is live at `now` exactly when `now`
    /// lies in `[created_at, expires_at)`.
    pub fn is_live_at(&self, now: TimestampInSeconds) -> (r: bool)
        ensures
            r == spec_is_live_at(self@, now@),
    {
        self.created_at.0 <= now.0 && now.0 < self.expires_at.0
    }

    /// Rejects an empty validity window: `Ok` exactly when
    /// `expires_at > created_at`.
    pub fn check_validity_window(&self) -> (r: Result<(), CredentialVerificationFailure>)
        ensures
            r is Ok <==> self@.expires_at > self@.created_at,
            r is Err <==> r == Result::<(), CredentialVerificationFailure>::Err(
                CredentialVerificationFailure::EmptyValidityWindow,
            ),
    {
        if self.expires_at.0 > self.created_at.0 {
            Ok(())
        } else {
            Err(CredentialVerificationFailure::EmptyValidityWindow)
        }
    }
}

/// Why a consumer enforcing temporal validity rejects a credential.
#[derive(Clone, Copy, Debug, PartialEq, Eq, Structural)]
pub enum CredentialVerificationFailure {
    /// The validity window is empty: `expires_at <= created_at`.
    EmptyValidityWindow,
}

/// A credential whose validity window is empty (`expires_at <= created_at`)
/// is live at no instant at all: any consumer enforcing temporal validity
/// rejects it.
pub proof fn lemma_empty_window_never_live(d: CredentialDataView)
    requires
        d.expires_at <= d.created_at,
    ensures
        forall|now: u64| !spec_is_live_at(d, now),
{
}

} // verus!
