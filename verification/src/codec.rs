//! Wire encoding of the credential data model: each structure travels as a
//! field-tagged map whose integer field tags are permanent, optional fields
//! are omitted, unknown fields before and after the known ones are skipped,
//! and attribute keys travel as byte strings. Decoding converts attribute
//! keys back to text, substituting a sentinel string for a key that is not
//! valid text, and folds the entries into the key-ordered map, a later entry
//! overwriting an earlier one with the same converted key.

use vstd::prelude::*;
use vstd::string::StrSliceExecFns;
use vstd::string::StringExecFns;
use vstd::utf8::{decode_utf8, encode_utf8, encode_utf8_decode_utf8, encode_utf8_valid_utf8,
    valid_utf8};
use crate::credential::{Attributes, AttributesView, Credential, CredentialData,
    CredentialDataView, CredentialSchemaIdentifier, CredentialSignature, CredentialSignatureView,
    CredentialView, ECDSASHA256CurveP256Signature, EdDSACurve25519Signature, VersionedData,
    VersionedDataView, bytes_lt, fold_pairs, key_lt, lemma_fold_pairs_of_sorted, map_insert,
    sorted_keys, valid_signature};
use crate::models::{ChangeHash, Identifier, TimestampInSeconds};
use crate::vault::copy_bytes;
use crate::wire::{HEAD_ARRAY, HEAD_MAP, decode_bytes, decode_head,
    decode_uint, enc_bytes, enc_head, enc_uint, encode_bytes, encode_head, encode_uint,
    lemma_parse_bytes_of_enc, lemma_parse_head_of_enc, lemma_parse_uint_of_enc, parse_bytes,
    parse_head, parse_uint};

verus! {

/// Decoding failed: the bytes are not a well-formed encoding of the requested
/// structure.
#[derive(Clone, Copy, Debug, PartialEq, Eq, Structural)]
pub struct DecodeError;

/// The sentinel substituted for an attribute key that is not valid text.
pub open spec fn sentinel_key() -> Seq<char> {
    "expected a string"@
}

fn sentinel_key_string() -> (s: String)
    ensures
        s@ == sentinel_key(),
{
    String::from_str("expected a string")
}

/// The text an attribute wire key decodes to: the decoded text when the bytes
/// are valid text, the sentinel otherwise.
pub open spec fn key_of_wire(kb: Seq<u8>) -> Seq<char> {
    if valid_utf8(kb) {
        decode_utf8(kb)
    } else {
        sentinel_key()
    }
}

/// Abstract attribute entries of a sequence of owned pairs.
pub open spec fn pairs_view(m: Seq<(String, Vec<u8>)>) -> Seq<(Seq<char>, Seq<u8>)> {
    Seq::new(m.len(), |i: int| (m[i].0@, m[i].1@))
}

/// Machine bounds under which attribute entries are encodable.
pub open spec fn wf_attr_pairs(m: Seq<(Seq<char>, Seq<u8>)>) -> bool {
    forall|k: int|
        0 <= k < m.len() ==> (#[trigger] encode_utf8(m[k].0)).len() <= u64::MAX && m[k].1.len()
            <= u64::MAX
}

/// Machine bounds under which an attribute set is encodable.
pub open spec fn wf_attributes(a: AttributesView) -> bool {
    a.map.len() <= u64::MAX && wf_attr_pairs(a.map)
}

/// Machine bounds under which a credential's content is encodable.
pub open spec fn wf_credential_data(d: CredentialDataView) -> bool {
    &&& wf_attributes(d.subject_attributes)
    &&& (d.subject matches Some(b) ==> b.len() <= u64::MAX)
    &&& (d.subject_latest_change_hash matches Some(b) ==> b.len() <= u64::MAX)
}

/// Machine bounds under which a credential is encodable.
pub open spec fn wf_credential(c: CredentialView) -> bool {
    c.data.len() <= u64::MAX
}

/// Machine bounds under which a versioned envelope is encodable.
pub open spec fn wf_versioned_data(v: VersionedDataView) -> bool {
    v.data.len() <= u64::MAX
}

/// An optional field: the tagged entry when present, nothing when absent.
pub open spec fn enc_opt_bytes_field(tag: u64, f: Option<Seq<u8>>) -> Seq<u8> {
    match f {
        Some(b) => enc_uint(tag) + enc_bytes(b),
        None => Seq::empty(),
    }
}

/// The encoding of attribute entries, in order: each entry is the key's text
/// bytes, then the value bytes.
pub open spec fn enc_attr_pairs(m: Seq<(Seq<char>, Seq<u8>)>) -> Seq<u8>
    decreases m.len(),
{
    if m.len() == 0 {
        Seq::empty()
    } else {
        enc_bytes(encode_utf8(m[0].0)) + enc_bytes(m[0].1) + enc_attr_pairs(m.drop_first())
    }
}

/// The encoding of an attribute set: a two-field map holding the schema
/// number (tag 1) and the byte-keyed attribute map (tag 2).
pub open spec fn enc_attributes(a: AttributesView) -> Seq<u8> {
    enc_head(HEAD_MAP, 2) + enc_uint(1) + enc_uint(a.schema) + enc_uint(2) + enc_head(
        HEAD_MAP,
        a.map.len() as u64,
    ) + enc_attr_pairs(a.map)
}

/// The encoding of a signature: a two-item array holding the scheme's
/// permanent discriminant, then the signature bytes.
pub open spec fn enc_signature(sig: CredentialSignatureView) -> Seq<u8> {
    match sig {
        CredentialSignatureView::EdDSACurve25519(b) => enc_head(HEAD_ARRAY, 2) + enc_uint(1)
            + enc_bytes(b),
        CredentialSignatureView::ECDSASHA256CurveP256(b) => enc_head(HEAD_ARRAY, 2) + enc_uint(2)
            + enc_bytes(b),
    }
}

/// How many fields a credential-content map carries: the three required
/// fields plus each optional field that is present.
pub open spec fn cd_field_count(subject: Option<Seq<u8>>, chash: Option<Seq<u8>>) -> u64 {
    (3 + (if subject is Some {
        1int
    } else {
        0int
    }) + (if chash is Some {
        1int
    } else {
        0int
    })) as u64
}

/// The encoding of a credential's content: a field-tagged map with the
/// subject (tag 1, optional), the subject's latest change hash (tag 2,
/// optional), the attributes (tag 3), and the creation and expiration
/// timestamps (tags 4 and 5).
pub open spec fn enc_credential_data(d: CredentialDataView) -> Seq<u8> {
    enc_head(HEAD_MAP, cd_field_count(d.subject, d.subject_latest_change_hash))
        + enc_opt_bytes_field(1, d.subject) + enc_opt_bytes_field(2, d.subject_latest_change_hash)
        + enc_uint(3) + enc_attributes(d.subject_attributes) + enc_uint(4) + enc_uint(d.created_at)
        + enc_uint(5) + enc_uint(d.expires_at)
}

/// The encoding of a credential: a field-tagged map with the signed payload
/// bytes (tag 1) and the signature (tag 2).
pub open spec fn enc_credential(c: CredentialView) -> Seq<u8> {
    enc_head(HEAD_MAP, 2) + enc_uint(1) + enc_bytes(c.data) + enc_uint(2) + enc_signature(
        c.signature,
    )
}

/// The encoding of a versioned envelope: a field-tagged map with the version
/// number (tag 1) and the wrapped payload bytes (tag 2).
pub open spec fn enc_versioned_data(v: VersionedDataView) -> Seq<u8> {
    enc_head(HEAD_MAP, 2) + enc_uint(1) + enc_uint(v.version) + enc_uint(2) + enc_bytes(v.data)
}

// ---------------------------------------------------------------------------
// Parsers: the meaning of decoding. Each reads one structure at a position
// and yields its abstract value and the position after it, or nothing when
// the bytes are not a well-formed encoding.
// ---------------------------------------------------------------------------
/// Skips one item of any kind: an unsigned integer, a byte string, an array,
/// or a map.
pub open spec fn parse_skip_item(s: Seq<u8>, i: int) -> Option<int>
    decreases s.len() - i, 0int,
{
    match parse_uint(s, i) {
        Some((_v, j)) => Some(j),
        None => match parse_bytes(s, i) {
            Some((_b, j)) => Some(j),
            None => match parse_head(s, i, HEAD_ARRAY) {
                Some((n, j)) => if i < j <= s.len() {
                    parse_skip_items(s, j, n as int)
                } else {
                    None
                },
                None => match parse_head(s, i, HEAD_MAP) {
                    Some((n, j)) => if i < j <= s.len() {
                        parse_skip_items(s, j, 2 * (n as int))
                    } else {
                        None
                    },
                    None => None,
                },
            },
        },
    }
}

/// Skips `count` consecutive items.
pub open spec fn parse_skip_items(s: Seq<u8>, i: int, count: int) -> Option<int>
    decreases s.len() - i, count,
{
    if count <= 0 {
        Some(i)
    } else {
        match parse_skip_item(s, i) {
            Some(j) => if i < j <= s.len() {
                parse_skip_items(s, j, count - 1)
            } else {
                None
            },
            None => None,
        }
    }
}

/// Skips `k` unknown trailing fields, each a tag and a value of any kind.
pub open spec fn parse_unknown_fields(s: Seq<u8>, i: int, k: u64) -> Option<int>
    decreases k,
{
    if k == 0 {
        Some(i)
    } else {
        match parse_uint(s, i) {
            Some((_tag, j)) => match parse_skip_item(s, j) {
                Some(e) => parse_unknown_fields(s, e, (k - 1) as u64),
                None => None,
            },
            None => None,
        }
    }
}

/// Skips unknown fields standing before the known ones: entries whose tag
/// lies outside `lo ..= hi`. Yields the position of the first entry with a
/// known tag and how many entries remain.
pub open spec fn parse_leading_unknowns(s: Seq<u8>, i: int, rem: u64, lo: u64, hi: u64) -> Option<
    (int, u64),
>
    decreases rem,
{
    if rem == 0 {
        Some((i, 0))
    } else {
        match parse_uint(s, i) {
            Some((t, j)) => if lo <= t && t <= hi {
                Some((i, rem))
            } else {
                match parse_skip_item(s, j) {
                    Some(e) => parse_leading_unknowns(s, e, (rem - 1) as u64, lo, hi),
                    None => None,
                }
            },
            None => None,
        }
    }
}

/// Reads an optional byte-string field with the given tag: consumes nothing
/// when the next field's tag differs.
pub open spec fn parse_opt_bytes_field(s: Seq<u8>, i: int, tag: u64) -> Option<
    (Option<Seq<u8>>, int),
> {
    match parse_uint(s, i) {
        Some((t, j)) => if t == tag {
            match parse_bytes(s, j) {
                Some((b, k)) => Some((Some(b), k)),
                None => None,
            }
        } else {
            Some((None, i))
        },
        None => None,
    }
}

/// Reads `n` attribute entries, converting each wire key to text with the
/// sentinel fallback.
pub open spec fn parse_attr_pairs(s: Seq<u8>, i: int, n: u64) -> Option<
    (Seq<(Seq<char>, Seq<u8>)>, int),
>
    decreases n,
{
    if n == 0 {
        Some((Seq::empty(), i))
    } else {
        match parse_bytes(s, i) {
            Some((kb, j)) => match parse_bytes(s, j) {
                Some((vb, k)) => match parse_attr_pairs(s, k, (n - 1) as u64) {
                    Some((rest, e)) => Some((seq![(key_of_wire(kb), vb)] + rest, e)),
                    None => None,
                },
                None => None,
            },
            None => None,
        }
    }
}

/// Reads the fields of an attribute set once leading unknown fields are
/// skipped: the schema (tag 1), the byte-keyed attribute map (tag 2), and any
/// unknown trailing fields. Colliding converted keys collapse, the last
/// arrival winning.
pub open spec fn parse_attributes_fields(s: Seq<u8>, i: int, rem: u64) -> Option<
    (AttributesView, int),
> {
    if rem < 2 {
        None
    } else {
        match parse_uint(s, i) {
            Some((t1, i2)) => if t1 == 1 {
                match parse_uint(s, i2) {
                    Some((schema, i3)) => match parse_uint(s, i3) {
                        Some((t2, i4)) => if t2 == 2 {
                            match parse_head(s, i4, HEAD_MAP) {
                                Some((m, i5)) => match parse_attr_pairs(s, i5, m) {
                                    Some((pairs, i6)) => match parse_unknown_fields(
                                        s,
                                        i6,
                                        (rem - 2) as u64,
                                    ) {
                                        Some(e) => Some(
                                            (
                                                AttributesView { schema, map: fold_pairs(pairs) },
                                                e,
                                            ),
                                        ),
                                        None => None,
                                    },
                                    None => None,
                                },
                                None => None,
                            }
                        } else {
                            None
                        },
                        None => None,
                    },
                    None => None,
                }
            } else {
                None
            },
            None => None,
        }
    }
}

/// Reads an attribute set.
pub open spec fn parse_attributes(s: Seq<u8>, i: int) -> Option<(AttributesView, int)> {
    match parse_head(s, i, HEAD_MAP) {
        Some((n, i0)) => match parse_leading_unknowns(s, i0, n, 1, 2) {
            Some((i1, rem)) => parse_attributes_fields(s, i1, rem),
            None => None,
        },
        None => None,
    }
}

/// Reads a signature: the scheme discriminant selects the variant, and the
/// signature must carry exactly 64 bytes.
pub open spec fn parse_signature(s: Seq<u8>, i: int) -> Option<(CredentialSignatureView, int)> {
    match parse_head(s, i, HEAD_ARRAY) {
        Some((n, i1)) => if n == 2 {
            match parse_uint(s, i1) {
                Some((t, i2)) => match parse_bytes(s, i2) {
                    Some((b, i3)) => if b.len() == 64 {
                        if t == 1 {
                            Some((CredentialSignatureView::EdDSACurve25519(b), i3))
                        } else if t == 2 {
                            Some((CredentialSignatureView::ECDSASHA256CurveP256(b), i3))
                        } else {
                            None
                        }
                    } else {
                        None
                    },
                    None => None,
                },
                None => None,
            }
        } else {
            None
        },
        None => None,
    }
}

/// Reads the required tail of a credential-content map: the attributes (tag
/// 3), the two timestamps (tags 4 and 5), and any unknown trailing fields.
pub open spec fn parse_cd_tail(
    s: Seq<u8>,
    i: int,
    n: u64,
    subject: Option<Seq<u8>>,
    chash: Option<Seq<u8>>,
) -> Option<(CredentialDataView, int)> {
    match parse_uint(s, i) {
        Some((t3, i4)) => if t3 == 3 {
            match parse_attributes(s, i4) {
                Some((attrs, i5)) => match parse_uint(s, i5) {
                    Some((t4, i6)) => if t4 == 4 {
                        match parse_uint(s, i6) {
                            Some((created, i7)) => match parse_uint(s, i7) {
                                Some((t5, i8)) => if t5 == 5 {
                                    match parse_uint(s, i8) {
                                        Some((expires, i9)) => if n >= cd_field_count(
                                            subject,
                                            chash,
                                        ) {
                                            match parse_unknown_fields(
                                                s,
                                                i9,
                                                (n - cd_field_count(subject, chash)) as u64,
                                            ) {
                                                Some(e) => Some(
                                                    (
                                                        CredentialDataView {
                                                            subject,
                                                            subject_latest_change_hash: chash,
                                                            subject_attributes: attrs,
                                                            created_at: created,
                                                            expires_at: expires,
                                                        },
                                                        e,
                                                    ),
                                                ),
                                                None => None,
                                            }
                                        } else {
                                            None
                                        },
                                        None => None,
                                    }
                                } else {
                                    None
                                },
                                None => None,
                            },
                            None => None,
                        }
                    } else {
                        None
                    },
                    None => None,
                },
                None => None,
            }
        } else {
            None
        },
        None => None,
    }
}

/// Reads a credential's content: a field-tagged map whose required fields
/// must all be present and whose unknown trailing fields are skipped.
pub open spec fn parse_credential_data(s: Seq<u8>, i: int) -> Option<(CredentialDataView, int)> {
    match parse_head(s, i, HEAD_MAP) {
        Some((n, i0)) => match parse_leading_unknowns(s, i0, n, 1, 5) {
            Some((i1, rem)) => match parse_opt_bytes_field(s, i1, 1) {
                Some((subject, i2)) => match parse_opt_bytes_field(s, i2, 2) {
                    Some((chash, i3)) => parse_cd_tail(s, i3, rem, subject, chash),
                    None => None,
                },
                None => None,
            },
            None => None,
        },
        None => None,
    }
}

/// Reads the fields of a credential once leading unknown fields are skipped:
/// payload bytes (tag 1), the signature (tag 2), and any unknown trailing
/// fields.
pub open spec fn parse_credential_fields(s: Seq<u8>, i: int, rem: u64) -> Option<
    (CredentialView, int),
> {
    if rem < 2 {
        None
    } else {
        match parse_uint(s, i) {
            Some((t1, i2)) => if t1 == 1 {
                match parse_bytes(s, i2) {
                    Some((data, i3)) => match parse_uint(s, i3) {
                        Some((t2, i4)) => if t2 == 2 {
                            match parse_signature(s, i4) {
                                Some((sig, i5)) => match parse_unknown_fields(
                                    s,
                                    i5,
                                    (rem - 2) as u64,
                                ) {
                                    Some(e) => Some((CredentialView { data, signature: sig }, e)),
                                    None => None,
                                },
                                None => None,
                            }
                        } else {
                            None
                        },
                        None => None,
                    },
                    None => None,
                }
            } else {
                None
            },
            None => None,
        }
    }
}

/// Reads a credential.
pub open spec fn parse_credential(s: Seq<u8>, i: int) -> Option<(CredentialView, int)> {
    match parse_head(s, i, HEAD_MAP) {
        Some((n, i0)) => match parse_leading_unknowns(s, i0, n, 1, 2) {
            Some((i1, rem)) => parse_credential_fields(s, i1, rem),
            None => None,
        },
        None => None,
    }
}

/// Reads the fields of a versioned envelope once leading unknown fields are
/// skipped: the version number (tag 1), the payload bytes (tag 2), and any
/// unknown trailing fields.
pub open spec fn parse_versioned_fields(s: Seq<u8>, i: int, rem: u64) -> Option<
    (VersionedDataView, int),
> {
    if rem < 2 {
        None
    } else {
        match parse_uint(s, i) {
            Some((t1, i2)) => if t1 == 1 {
                match parse_uint(s, i2) {
                    Some((version, i3)) => match parse_uint(s, i3) {
                        Some((t2, i4)) => if t2 == 2 {
                            match parse_bytes(s, i4) {
                                Some((data, i5)) => match parse_unknown_fields(
                                    s,
                                    i5,
                                    (rem - 2) as u64,
                                ) {
                                    Some(e) => Some((VersionedDataView { version, data }, e)),
                                    None => None,
                                },
                                None => None,
                            }
                        } else {
                            None
                        },
                        None => None,
                    },
                    None => None,
                }
            } else {
                None
            },
            None => None,
        }
    }
}

/// Reads a versioned envelope.
pub open spec fn parse_versioned_data(s: Seq<u8>, i: int) -> Option<(VersionedDataView, int)> {
    match parse_head(s, i, HEAD_MAP) {
        Some((n, i0)) => match parse_leading_unknowns(s, i0, n, 1, 2) {
            Some((i1, rem)) => parse_versioned_fields(s, i1, rem),
            None => None,
        },
        None => None,
    }
}

// ---------------------------------------------------------------------------
// Encoders.
// ---------------------------------------------------------------------------
/// Entries of the first `k` attribute pairs prefix the entries of all of
/// them.
proof fn lemma_enc_attr_pairs_take(m: Seq<(Seq<char>, Seq<u8>)>, k: int)
    requires
        0 <= k < m.len(),
    ensures
        enc_attr_pairs(m.take(k + 1)) == enc_attr_pairs(m.take(k)) + enc_bytes(
            encode_utf8(m[k].0),
        ) + enc_bytes(m[k].1),
    decreases k,
{
    if k == 0 {
        assert(m.take(1).drop_first() =~= m.take(0));
        assert(m.take(0) =~= Seq::<(Seq<char>, Seq<u8>)>::empty());
        assert(enc_attr_pairs(m.take(1)) =~= enc_attr_pairs(m.take(0)) + enc_bytes(
            encode_utf8(m[0].0),
        ) + enc_bytes(m[0].1));
    } else {
        lemma_enc_attr_pairs_take(m.drop_first(), k - 1);
        assert(m.take(k + 1).drop_first() =~= m.drop_first().take(k));
        assert(m.take(k).drop_first() =~= m.drop_first().take(k - 1));
        assert(m.take(k + 1)[0] == m[0] && m.take(k)[0] == m[0]);
        assert(m.drop_first()[k - 1] == m[k]);
        assert(enc_attr_pairs(m.take(k + 1)) =~= enc_attr_pairs(m.take(k)) + enc_bytes(
            encode_utf8(m[k].0),
        ) + enc_bytes(m[k].1));
    }
}

/// Appends the encoding of the attribute entries, in order.
fn encode_attr_pairs(map: &Vec<(String, Vec<u8>)>, out: &mut Vec<u8>)
    ensures
        final(out)@ == old(out)@ + enc_attr_pairs(pairs_view(map@)),
{
    let ghost m = pairs_view(map@);
    let ghost start = out@;
    let mut k: usize = 0;
    proof {
        assert(m.take(0) =~= Seq::<(Seq<char>, Seq<u8>)>::empty());
        assert(out@ =~= start + enc_attr_pairs(m.take(0)));
    }
    while k < map.len()
        invariant
            0 <= k <= map@.len(),
            m == pairs_view(map@),
            m.len() == map@.len(),
            out@ == start + enc_attr_pairs(m.take(k as int)),
        decreases map@.len() - k,
    {
        let kb = map[k].0.as_str().as_bytes_vec();
        encode_bytes(&kb, out);
        encode_bytes(&map[k].1, out);
        proof {
            assert(m[k as int].0 == map@[k as int].0@ && m[k as int].1 == map@[k as int].1@);
            lemma_enc_attr_pairs_take(m, k as int);
            assert(out@ =~= start + enc_attr_pairs(m.take(k + 1 as int)));
        }
        k = k + 1;
    }
    proof {
        assert(m.take(m.len() as int) =~= m);
    }
}

/// Appends the encoding of an attribute set.
pub fn encode_attributes(a: &Attributes, out: &mut Vec<u8>)
    ensures
        final(out)@ == old(out)@ + enc_attributes(a@),
{
    encode_head(HEAD_MAP, 2, out);
    encode_uint(1, out);
    encode_uint(a.schema.0, out);
    encode_uint(2, out);
    encode_head(HEAD_MAP, a.map.len() as u64, out);
    encode_attr_pairs(&a.map, out);
    proof {
        assert(out@ =~= old(out)@ + enc_attributes(a@));
    }
}

/// Appends the encoding of a signature.
pub fn encode_signature(sig: &CredentialSignature, out: &mut Vec<u8>)
    ensures
        final(out)@ == old(out)@ + enc_signature(sig@),
{
    encode_head(HEAD_ARRAY, 2, out);
    match sig {
        CredentialSignature::EdDSACurve25519(b) => {
            encode_uint(1, out);
            encode_bytes(&b.0, out);
        },
        CredentialSignature::ECDSASHA256CurveP256(b) => {
            encode_uint(2, out);
            encode_bytes(&b.0, out);
        },
    }
    proof {
        assert(out@ =~= old(out)@ + enc_signature(sig@));
    }
}

/// Encodes a credential's content to its wire bytes.
pub fn encode_credential_data(d: &CredentialData) -> (r: Vec<u8>)
    ensures
        r@ == enc_credential_data(d@),
{
    let mut out: Vec<u8> = Vec::new();
    let count: u64 = 3 + (if d.subject.is_some() {
        1
    } else {
        0
    }) + (if d.subject_latest_change_hash.is_some() {
        1
    } else {
        0
    });
    encode_head(HEAD_MAP, count, &mut out);
    match &d.subject {
        Some(id) => {
            encode_uint(1, &mut out);
            encode_bytes(&id.0, &mut out);
        },
        None => {},
    }
    match &d.subject_latest_change_hash {
        Some(h) => {
            encode_uint(2, &mut out);
            encode_bytes(&h.0, &mut out);
        },
        None => {},
    }
    encode_uint(3, &mut out);
    encode_attributes(&d.subject_attributes, &mut out);
    encode_uint(4, &mut out);
    encode_uint(d.created_at.0, &mut out);
    encode_uint(5, &mut out);
    encode_uint(d.expires_at.0, &mut out);
    proof {
        assert(out@ =~= enc_credential_data(d@));
    }
    out
}

/// Encodes a credential to its wire bytes.
pub fn encode_credential(c: &Credential) -> (r: Vec<u8>)
    ensures
        r@ == enc_credential(c@),
{
    let mut out: Vec<u8> = Vec::new();
    encode_head(HEAD_MAP, 2, &mut out);
    encode_uint(1, &mut out);
    encode_bytes(&c.data, &mut out);
    encode_uint(2, &mut out);
    encode_signature(&c.signature, &mut out);
    proof {
        assert(out@ =~= enc_credential(c@));
    }
    out
}

/// Encodes a versioned envelope to its wire bytes.
pub fn encode_versioned_data(v: &VersionedData) -> (r: Vec<u8>)
    ensures
        r@ == enc_versioned_data(v@),
{
    let mut out: Vec<u8> = Vec::new();
    encode_head(HEAD_MAP, 2, &mut out);
    encode_uint(1, &mut out);
    encode_uint(v.version, &mut out);
    encode_uint(2, &mut out);
    encode_bytes(&v.data, &mut out);
    proof {
        assert(out@ =~= enc_versioned_data(v@));
    }
    out
}

// ---------------------------------------------------------------------------
// Round trip: decoding an encoding yields the encoded value back.
// ---------------------------------------------------------------------------
/// The bytes `e` stand in `s` at position `i`.
pub open spec fn slice_at(s: Seq<u8>, i: int, e: Seq<u8>) -> bool {
    0 <= i && i + e.len() <= s.len() && s.subrange(i, i + e.len()) == e
}

/// Concatenated bytes standing at `i` stand there piece by piece.
proof fn lemma_slice_at_split(s: Seq<u8>, i: int, a: Seq<u8>, b: Seq<u8>)
    requires
        slice_at(s, i, a + b),
    ensures
        slice_at(s, i, a),
        slice_at(s, i + a.len(), b),
{
    let ab = a + b;
    assert forall|k: int| 0 <= k < a.len() implies s.subrange(i, i + a.len() as int)[k] == a[k] by {
        assert(s.subrange(i, i + ab.len() as int)[k] == ab[k]);
    }
    assert(s.subrange(i, i + a.len()) =~= a);
    assert forall|k: int| 0 <= k < b.len() implies s.subrange(
        i + a.len(),
        i + a.len() + b.len() as int,
    )[k] == b[k] by {
        assert(s.subrange(i, i + ab.len() as int)[a.len() + k] == ab[a.len() + k]);
    }
    assert(s.subrange(i + a.len(), i + a.len() + b.len()) =~= b);
}

/// Bytes standing at `i` piece by piece stand there concatenated.
proof fn lemma_slice_at_join(s: Seq<u8>, i: int, a: Seq<u8>, b: Seq<u8>)
    requires
        slice_at(s, i, a),
        slice_at(s, i + a.len(), b),
    ensures
        slice_at(s, i, a + b),
{
    assert forall|k: int| 0 <= k < a.len() + b.len() implies s.subrange(
        i,
        i + a.len() + b.len() as int,
    )[k] == (a + b)[k] by {
        if k < a.len() {
            assert(s.subrange(i, i + a.len() as int)[k] == a[k]);
        } else {
            assert(s.subrange(i + a.len(), i + a.len() + b.len() as int)[k - a.len()] == b[k
                - a.len()]);
        }
    }
    assert(s.subrange(i, i + a.len() + b.len()) =~= a + b);
}

/// Attribute entries standing at `i` parse back to themselves.
proof fn lemma_parse_attr_pairs_of_enc(s: Seq<u8>, i: int, m: Seq<(Seq<char>, Seq<u8>)>)
    requires
        m.len() <= u64::MAX,
        wf_attr_pairs(m),
        slice_at(s, i, enc_attr_pairs(m)),
    ensures
        parse_attr_pairs(s, i, m.len() as u64) == Some((m, i + enc_attr_pairs(m).len())),
    decreases m.len(),
{
    if m.len() == 0 {
        assert(m =~= Seq::<(Seq<char>, Seq<u8>)>::empty());
    } else {
        let kb = encode_utf8(m[0].0);
        let p1 = enc_bytes(kb);
        let p2 = enc_bytes(m[0].1);
        let rest = enc_attr_pairs(m.drop_first());
        lemma_slice_at_split(s, i, p1 + p2, rest);
        lemma_slice_at_split(s, i, p1, p2);
        lemma_parse_bytes_of_enc(s, i, kb);
        lemma_parse_bytes_of_enc(s, i + p1.len(), m[0].1);
        encode_utf8_valid_utf8(m[0].0);
        encode_utf8_decode_utf8(m[0].0);
        assert(key_of_wire(kb) == m[0].0);
        assert(wf_attr_pairs(m.drop_first())) by {
            assert(forall|k: int|
                0 <= k < m.drop_first().len() ==> #[trigger] m.drop_first()[k] == m[k + 1]);
        }
        lemma_parse_attr_pairs_of_enc(s, i + p1.len() + p2.len(), m.drop_first());
        assert(seq![(key_of_wire(kb), m[0].1)] + m.drop_first() =~= m);
    }
}

/// An attribute set standing at `i` parses back to itself.
proof fn lemma_parse_attributes_of_enc(s: Seq<u8>, i: int, a: AttributesView)
    requires
        wf_attributes(a),
        sorted_keys(a.map),
        slice_at(s, i, enc_attributes(a)),
    ensures
        parse_attributes(s, i) == Some((a, i + enc_attributes(a).len())),
{
    let p1 = enc_head(HEAD_MAP, 2);
    let p2 = enc_uint(1);
    let p3 = enc_uint(a.schema);
    let p4 = enc_uint(2);
    let p5 = enc_head(HEAD_MAP, a.map.len() as u64);
    let p6 = enc_attr_pairs(a.map);
    lemma_slice_at_split(s, i, p1 + p2 + p3 + p4 + p5, p6);
    lemma_slice_at_split(s, i, p1 + p2 + p3 + p4, p5);
    lemma_slice_at_split(s, i, p1 + p2 + p3, p4);
    lemma_slice_at_split(s, i, p1 + p2, p3);
    lemma_slice_at_split(s, i, p1, p2);
    lemma_parse_head_of_enc(s, i, HEAD_MAP, 2);
    lemma_parse_uint_of_enc(s, i + 9, 1);
    lemma_parse_uint_of_enc(s, i + 18, a.schema);
    lemma_parse_uint_of_enc(s, i + 27, 2);
    lemma_parse_head_of_enc(s, i + 36, HEAD_MAP, a.map.len() as u64);
    lemma_parse_attr_pairs_of_enc(s, i + 45, a.map);
    lemma_fold_pairs_of_sorted(a.map);
    assert(AttributesView { schema: a.schema, map: a.map } == a);
}

/// A signature standing at `i` parses back to itself.
proof fn lemma_parse_signature_of_enc(s: Seq<u8>, i: int, sig: CredentialSignatureView)
    requires
        valid_signature(sig),
        slice_at(s, i, enc_signature(sig)),
    ensures
        parse_signature(s, i) == Some((sig, i + enc_signature(sig).len())),
{
    match sig {
        CredentialSignatureView::EdDSACurve25519(b) => {
            lemma_slice_at_split(s, i, enc_head(HEAD_ARRAY, 2) + enc_uint(1), enc_bytes(b));
            lemma_slice_at_split(s, i, enc_head(HEAD_ARRAY, 2), enc_uint(1));
            lemma_parse_head_of_enc(s, i, HEAD_ARRAY, 2);
            lemma_parse_uint_of_enc(s, i + 9, 1);
            lemma_parse_bytes_of_enc(s, i + 18, b);
        },
        CredentialSignatureView::ECDSASHA256CurveP256(b) => {
            lemma_slice_at_split(s, i, enc_head(HEAD_ARRAY, 2) + enc_uint(2), enc_bytes(b));
            lemma_slice_at_split(s, i, enc_head(HEAD_ARRAY, 2), enc_uint(2));
            lemma_parse_head_of_enc(s, i, HEAD_ARRAY, 2);
            lemma_parse_uint_of_enc(s, i + 9, 2);
            lemma_parse_bytes_of_enc(s, i + 18, b);
        },
    }
}

/// A present optional field standing at `i` parses back to its bytes.
proof fn lemma_parse_opt_field_some(s: Seq<u8>, i: int, tag: u64, b: Seq<u8>)
    requires
        b.len() <= u64::MAX,
        slice_at(s, i, enc_uint(tag) + enc_bytes(b)),
    ensures
        parse_opt_bytes_field(s, i, tag) == Some((Some(b), i + 18 + b.len())),
{
    lemma_slice_at_split(s, i, enc_uint(tag), enc_bytes(b));
    lemma_parse_uint_of_enc(s, i, tag);
    lemma_parse_bytes_of_enc(s, i + 9, b);
}

/// An absent optional field consumes nothing when the next field's tag
/// differs.
proof fn lemma_parse_opt_field_absent(s: Seq<u8>, i: int, tag: u64, other: u64)
    requires
        other != tag,
        slice_at(s, i, enc_uint(other)),
    ensures
        parse_opt_bytes_field(s, i, tag) == Some((None::<Seq<u8>>, i)),
{
    lemma_parse_uint_of_enc(s, i, other);
}

/// The two optional leading fields of a credential-content map standing at
/// `i`, followed by the tag of the required attributes field, parse back to
/// the optional values.
proof fn lemma_parse_cd_opt_fields_of_enc(
    s: Seq<u8>,
    i: int,
    subject: Option<Seq<u8>>,
    chash: Option<Seq<u8>>,
)
    requires
        subject matches Some(b) ==> b.len() <= u64::MAX,
        chash matches Some(b) ==> b.len() <= u64::MAX,
        slice_at(s, i, enc_opt_bytes_field(1, subject) + enc_opt_bytes_field(2, chash) + enc_uint(3)),
    ensures
        parse_opt_bytes_field(s, i, 1) == Some(
            (subject, i + enc_opt_bytes_field(1, subject).len()),
        ),
        parse_opt_bytes_field(s, i + enc_opt_bytes_field(1, subject).len(), 2) == Some(
            (
                chash,
                i + enc_opt_bytes_field(1, subject).len() + enc_opt_bytes_field(2, chash).len(),
            ),
        ),
{
    let f1 = enc_opt_bytes_field(1, subject);
    let f2 = enc_opt_bytes_field(2, chash);
    let p3 = enc_uint(3);
    lemma_slice_at_split(s, i, f1 + f2, p3);
    lemma_slice_at_split(s, i, f1, f2);
    let o2 = i + f1.len();
    match subject {
        Some(b1) => {
            lemma_parse_opt_field_some(s, i, 1, b1);
        },
        None => {
            match chash {
                Some(b2) => {
                    lemma_slice_at_split(s, o2, enc_uint(2), enc_bytes(b2));
                    lemma_parse_opt_field_absent(s, i, 1, 2);
                },
                None => {
                    lemma_parse_opt_field_absent(s, i, 1, 3);
                },
            }
        },
    }
    match chash {
        Some(b2) => {
            lemma_parse_opt_field_some(s, o2, 2, b2);
        },
        None => {
            lemma_parse_opt_field_absent(s, o2, 2, 3);
        },
    }
}

/// A credential's content standing at `i` parses back to itself.
proof fn lemma_parse_credential_data_of_enc(s: Seq<u8>, i: int, d: CredentialDataView)
    requires
        wf_credential_data(d),
        sorted_keys(d.subject_attributes.map),
        slice_at(s, i, enc_credential_data(d)),
    ensures
        parse_credential_data(s, i) == Some((d, i + enc_credential_data(d).len())),
{
    let n = cd_field_count(d.subject, d.subject_latest_change_hash);
    let p0 = enc_head(HEAD_MAP, n);
    let f1 = enc_opt_bytes_field(1, d.subject);
    let f2 = enc_opt_bytes_field(2, d.subject_latest_change_hash);
    let p3 = enc_uint(3);
    let pa = enc_attributes(d.subject_attributes);
    let p4 = enc_uint(4);
    let pc = enc_uint(d.created_at);
    let p5 = enc_uint(5);
    let pe = enc_uint(d.expires_at);
    lemma_slice_at_split(s, i, p0 + f1 + f2 + p3 + pa + p4 + pc + p5, pe);
    lemma_slice_at_split(s, i, p0 + f1 + f2 + p3 + pa + p4 + pc, p5);
    lemma_slice_at_split(s, i, p0 + f1 + f2 + p3 + pa + p4, pc);
    lemma_slice_at_split(s, i, p0 + f1 + f2 + p3 + pa, p4);
    lemma_slice_at_split(s, i, p0 + f1 + f2 + p3, pa);
    lemma_slice_at_split(s, i, p0 + f1 + f2, p3);
    lemma_slice_at_split(s, i, p0 + f1, f2);
    lemma_slice_at_split(s, i, p0, f1);
    let o1 = i + 9;
    let o2 = o1 + f1.len();
    let o3 = o2 + f2.len();
    lemma_parse_head_of_enc(s, i, HEAD_MAP, n);
    lemma_slice_at_join(s, o1, f1, f2);
    lemma_slice_at_join(s, o1, f1 + f2, p3);
    lemma_parse_cd_opt_fields_of_enc(s, o1, d.subject, d.subject_latest_change_hash);
    lemma_parse_cd_tail_of_enc(s, o3, d);
    let end = o3 + 45 + pa.len();
    assert(parse_head(s, i, HEAD_MAP) == Some((n, o1)));
    assert(parse_opt_bytes_field(s, o1, 1) == Some((d.subject, o2)));
    assert(parse_opt_bytes_field(s, o2, 2) == Some((d.subject_latest_change_hash, o3)));
    assert(end == i + enc_credential_data(d).len());
    assert(parse_credential_data(s, i) == Some((d, end)));
}

/// The required tail of a credential's content standing at `i` parses back to
/// its fields.
proof fn lemma_parse_cd_tail_of_enc(s: Seq<u8>, i: int, d: CredentialDataView)
    requires
        wf_attributes(d.subject_attributes),
        sorted_keys(d.subject_attributes.map),
        slice_at(s, i, enc_uint(3)),
        slice_at(s, i + 9, enc_attributes(d.subject_attributes)),
        slice_at(s, i + 9 + enc_attributes(d.subject_attributes).len(), enc_uint(4)),
        slice_at(s, i + 18 + enc_attributes(d.subject_attributes).len(), enc_uint(d.created_at)),
        slice_at(s, i + 27 + enc_attributes(d.subject_attributes).len(), enc_uint(5)),
        slice_at(s, i + 36 + enc_attributes(d.subject_attributes).len(), enc_uint(d.expires_at)),
    ensures
        parse_cd_tail(
            s,
            i,
            cd_field_count(d.subject, d.subject_latest_change_hash),
            d.subject,
            d.subject_latest_change_hash,
        ) == Some((d, i + 45 + enc_attributes(d.subject_attributes).len())),
{
    let pa = enc_attributes(d.subject_attributes);
    let n = cd_field_count(d.subject, d.subject_latest_change_hash);
    lemma_parse_uint_of_enc(s, i, 3);
    lemma_parse_attributes_of_enc(s, i + 9, d.subject_attributes);
    let o4 = i + 9 + pa.len();
    lemma_parse_uint_of_enc(s, o4, 4);
    lemma_parse_uint_of_enc(s, o4 + 9, d.created_at);
    lemma_parse_uint_of_enc(s, o4 + 18, 5);
    lemma_parse_uint_of_enc(s, o4 + 27, d.expires_at);
    let end = o4 + 36;
    assert(parse_unknown_fields(s, end, (n - n) as u64) == Some(end));
    assert(CredentialDataView {
        subject: d.subject,
        subject_latest_change_hash: d.subject_latest_change_hash,
        subject_attributes: d.subject_attributes,
        created_at: d.created_at,
        expires_at: d.expires_at,
    } == d);
    assert(parse_cd_tail(s, i, n, d.subject, d.subject_latest_change_hash) == Some((d, end)));
}

/// A credential standing at `i` parses back to itself.
proof fn lemma_parse_credential_of_enc(s: Seq<u8>, i: int, c: CredentialView)
    requires
        wf_credential(c),
        valid_signature(c.signature),
        slice_at(s, i, enc_credential(c)),
    ensures
        parse_credential(s, i) == Some((c, i + enc_credential(c).len())),
{
    let p0 = enc_head(HEAD_MAP, 2);
    let p1 = enc_uint(1);
    let pd = enc_bytes(c.data);
    let p2 = enc_uint(2);
    let ps = enc_signature(c.signature);
    lemma_slice_at_split(s, i, p0 + p1 + pd + p2, ps);
    lemma_slice_at_split(s, i, p0 + p1 + pd, p2);
    lemma_slice_at_split(s, i, p0 + p1, pd);
    lemma_slice_at_split(s, i, p0, p1);
    lemma_parse_head_of_enc(s, i, HEAD_MAP, 2);
    lemma_parse_uint_of_enc(s, i + 9, 1);
    lemma_parse_bytes_of_enc(s, i + 18, c.data);
    let o = i + 18 + pd.len();
    lemma_parse_uint_of_enc(s, o, 2);
    lemma_parse_signature_of_enc(s, o + 9, c.signature);
    assert(CredentialView { data: c.data, signature: c.signature } == c);
}

/// A versioned envelope standing at `i` parses back to itself.
proof fn lemma_parse_versioned_data_of_enc(s: Seq<u8>, i: int, v: VersionedDataView)
    requires
        wf_versioned_data(v),
        slice_at(s, i, enc_versioned_data(v)),
    ensures
        parse_versioned_data(s, i) == Some((v, i + enc_versioned_data(v).len())),
{
    let p0 = enc_head(HEAD_MAP, 2);
    let p1 = enc_uint(1);
    let pv = enc_uint(v.version);
    let p2 = enc_uint(2);
    let pd = enc_bytes(v.data);
    lemma_slice_at_split(s, i, p0 + p1 + pv + p2, pd);
    lemma_slice_at_split(s, i, p0 + p1 + pv, p2);
    lemma_slice_at_split(s, i, p0 + p1, pv);
    lemma_slice_at_split(s, i, p0, p1);
    lemma_parse_head_of_enc(s, i, HEAD_MAP, 2);
    lemma_parse_uint_of_enc(s, i + 9, 1);
    lemma_parse_uint_of_enc(s, i + 18, v.version);
    lemma_parse_uint_of_enc(s, i + 27, 2);
    lemma_parse_bytes_of_enc(s, i + 36, v.data);
    assert(VersionedDataView { version: v.version, data: v.data } == v);
}

/// Round trip of the attribute adaptation: decoding the encoding of any
/// attribute set whose entries are in map order yields the set back,
/// consuming the whole encoding.
pub proof fn lemma_attributes_round_trip(a: AttributesView)
    requires
        wf_attributes(a),
        sorted_keys(a.map),
    ensures
        parse_attributes(enc_attributes(a), 0) == Some((a, enc_attributes(a).len() as int)),
{
    let s = enc_attributes(a);
    assert(s.subrange(0, s.len() as int) =~= s);
    lemma_parse_attributes_of_enc(s, 0, a);
}

/// Round trip: decoding the encoding of any well-formed credential content
/// yields the value back, consuming the whole encoding.
#[verifier::rlimit(100)]
pub proof fn lemma_credential_data_round_trip(d: CredentialDataView)
    requires
        wf_credential_data(d),
        sorted_keys(d.subject_attributes.map),
    ensures
        parse_credential_data(enc_credential_data(d), 0) == Some(
            (d, enc_credential_data(d).len() as int),
        ),
{
    let s = enc_credential_data(d);
    assert(s.subrange(0, s.len() as int) =~= s);
    lemma_parse_credential_data_of_enc(s, 0, d);
}

/// Round trip: decoding the encoding of any well-formed credential yields the
/// value back, consuming the whole encoding.
pub proof fn lemma_credential_round_trip(c: CredentialView)
    requires
        wf_credential(c),
        valid_signature(c.signature),
    ensures
        parse_credential(enc_credential(c), 0) == Some((c, enc_credential(c).len() as int)),
{
    let s = enc_credential(c);
    assert(s.subrange(0, s.len() as int) =~= s);
    lemma_parse_credential_of_enc(s, 0, c);
}

/// Round trip: decoding the encoding of any well-formed versioned envelope
/// yields the value back, consuming the whole encoding.
pub proof fn lemma_versioned_data_round_trip(v: VersionedDataView)
    requires
        wf_versioned_data(v),
    ensures
        parse_versioned_data(enc_versioned_data(v), 0) == Some(
            (v, enc_versioned_data(v).len() as int),
        ),
{
    let s = enc_versioned_data(v);
    assert(s.subrange(0, s.len() as int) =~= s);
    lemma_parse_versioned_data_of_enc(s, 0, v);
}

// ---------------------------------------------------------------------------
// Decoders.
// ---------------------------------------------------------------------------
/// Relies on String::from_utf8: it returns the text decoded from the bytes
/// exactly when they are valid UTF-8, and errors otherwise.
#[verifier::external_body]
fn bytes_to_string(b: Vec<u8>) -> (r: Option<String>)
    ensures
        r matches Some(s) ==> valid_utf8(b@) && s@ == decode_utf8(b@),
        r is None ==> !valid_utf8(b@),
{
    match String::from_utf8(b) {
        Ok(s) => Some(s),
        Err(_) => None,
    }
}

/// Skips one item of any kind.
fn decode_skip_item(bytes: &Vec<u8>, pos: usize) -> (r: Option<usize>)
    ensures
        match r {
            Some(e) => parse_skip_item(bytes@, pos as int) == Some(e as int),
            None => parse_skip_item(bytes@, pos as int) is None,
        },
    decreases bytes@.len() - pos, 0int,
{
    match decode_uint(bytes, pos) {
        Some((_v, j)) => Some(j),
        None => match decode_bytes(bytes, pos) {
            Some((_b, j)) => Some(j),
            None => match decode_head(bytes, pos, HEAD_ARRAY) {
                Some((n, j)) => {
                    if pos < j && j <= bytes.len() {
                        decode_skip_items(bytes, j, n as u128)
                    } else {
                        None
                    }
                },
                None => match decode_head(bytes, pos, HEAD_MAP) {
                    Some((n, j)) => {
                        if pos < j && j <= bytes.len() {
                            decode_skip_items(bytes, j, 2 * (n as u128))
                        } else {
                            None
                        }
                    },
                    None => None,
                },
            },
        },
    }
}

/// Skips `count` consecutive items.
fn decode_skip_items(bytes: &Vec<u8>, pos: usize, count: u128) -> (r: Option<usize>)
    ensures
        match r {
            Some(e) => parse_skip_items(bytes@, pos as int, count as int) == Some(e as int),
            None => parse_skip_items(bytes@, pos as int, count as int) is None,
        },
    decreases bytes@.len() - pos, count,
{
    if count == 0 {
        Some(pos)
    } else {
        match decode_skip_item(bytes, pos) {
            Some(j) => {
                if pos < j && j <= bytes.len() {
                    decode_skip_items(bytes, j, count - 1)
                } else {
                    None
                }
            },
            None => None,
        }
    }
}

/// Skips `k` unknown trailing fields.
fn decode_unknown_fields(bytes: &Vec<u8>, pos: usize, k: u64) -> (r: Option<usize>)
    ensures
        match r {
            Some(e) => parse_unknown_fields(bytes@, pos as int, k) == Some(e as int),
            None => parse_unknown_fields(bytes@, pos as int, k) is None,
        },
    decreases k,
{
    if k == 0 {
        Some(pos)
    } else {
        match decode_uint(bytes, pos) {
            Some((_tag, j)) => match decode_skip_item(bytes, j) {
                Some(e) => decode_unknown_fields(bytes, e, k - 1),
                None => None,
            },
            None => None,
        }
    }
}

/// Skips unknown fields standing before the known ones.
fn decode_leading_unknowns(bytes: &Vec<u8>, pos: usize, rem: u64, lo: u64, hi: u64) -> (r: Option<
    (usize, u64),
>)
    ensures
        match r {
            Some((p, rem2)) => parse_leading_unknowns(bytes@, pos as int, rem, lo, hi) == Some(
                (p as int, rem2),
            ),
            None => parse_leading_unknowns(bytes@, pos as int, rem, lo, hi) is None,
        },
    decreases rem,
{
    if rem == 0 {
        Some((pos, 0))
    } else {
        match decode_uint(bytes, pos) {
            Some((t, j)) => {
                if lo <= t && t <= hi {
                    Some((pos, rem))
                } else {
                    match decode_skip_item(bytes, j) {
                        Some(e) => decode_leading_unknowns(bytes, e, rem - 1, lo, hi),
                        None => None,
                    }
                }
            },
            None => None,
        }
    }
}

/// Reads an optional byte-string field with the given tag.
fn decode_opt_bytes_field(bytes: &Vec<u8>, pos: usize, tag: u64) -> (r: Option<
    (Option<Vec<u8>>, usize),
>)
    ensures
        match r {
            Some((f, p)) => parse_opt_bytes_field(bytes@, pos as int, tag) == Some(
                (
                    match f {
                        Some(b) => Some(b@),
                        None => None,
                    },
                    p as int,
                ),
            ),
            None => parse_opt_bytes_field(bytes@, pos as int, tag) is None,
        },
{
    match decode_uint(bytes, pos) {
        Some((t, j)) => if t == tag {
            match decode_bytes(bytes, j) {
                Some((b, k)) => Some((Some(b), k)),
                None => None,
            }
        } else {
            Some((None, pos))
        },
        None => None,
    }
}

/// Reads `n` attribute entries, converting each wire key to text with the
/// sentinel fallback.
fn decode_attr_pairs(bytes: &Vec<u8>, pos: usize, n: u64) -> (r: Option<
    (Vec<(String, Vec<u8>)>, usize),
>)
    ensures
        match r {
            Some((v, p)) => parse_attr_pairs(bytes@, pos as int, n) == Some(
                (pairs_view(v@), p as int),
            ),
            None => parse_attr_pairs(bytes@, pos as int, n) is None,
        },
    decreases n,
{
    if n == 0 {
        let v: Vec<(String, Vec<u8>)> = Vec::new();
        proof {
            assert(pairs_view(v@) =~= Seq::<(Seq<char>, Seq<u8>)>::empty());
        }
        Some((v, pos))
    } else {
        match decode_bytes(bytes, pos) {
            Some((kb, j)) => match decode_bytes(bytes, j) {
                Some((vb, k)) => {
                    let ghost kbv = kb@;
                    let ghost vbv = vb@;
                    let key = match bytes_to_string(kb) {
                        Some(s) => s,
                        None => sentinel_key_string(),
                    };
                    proof {
                        assert(key@ == key_of_wire(kbv));
                    }
                    match decode_attr_pairs(bytes, k, n - 1) {
                        Some((rest, e)) => {
                            let ghost restv = pairs_view(rest@);
                            let mut res = rest;
                            res.insert(0, (key, vb));
                            proof {
                                assert(pairs_view(res@) =~= seq![(key_of_wire(kbv), vbv)] + restv);
                            }
                            Some((res, e))
                        },
                        None => None,
                    }
                },
                None => None,
            },
            None => None,
        }
    }
}

/// Reports whether `a`'s bytes come strictly before `b`'s in lexicographic
/// order.
fn bytes_lt_vec(a: &Vec<u8>, b: &Vec<u8>) -> (r: bool)
    ensures
        r == bytes_lt(a@, b@),
{
    let mut k: usize = 0;
    proof {
        assert(a@.skip(0) =~= a@);
        assert(b@.skip(0) =~= b@);
    }
    while k < a.len() && k < b.len()
        invariant
            0 <= k <= a@.len(),
            0 <= k <= b@.len(),
            bytes_lt(a@, b@) == bytes_lt(a@.skip(k as int), b@.skip(k as int)),
        decreases a@.len() - k,
    {
        let ghost sa = a@.skip(k as int);
        let ghost sb = b@.skip(k as int);
        proof {
            assert(sa[0] == a@[k as int] && sb[0] == b@[k as int]);
        }
        if a[k] < b[k] {
            return true;
        }
        if a[k] > b[k] {
            return false;
        }
        proof {
            assert(sa.drop_first() =~= a@.skip(k + 1 as int));
            assert(sb.drop_first() =~= b@.skip(k + 1 as int));
        }
        k = k + 1;
    }
    proof {
        if k == a@.len() {
            assert(a@.skip(k as int) =~= Seq::<u8>::empty());
        }
        if k == b@.len() {
            assert(b@.skip(k as int) =~= Seq::<u8>::empty());
        }
    }
    a.len() < b.len()
}

/// Reports whether `a` comes strictly before `b` in the attribute-key order.
fn key_lt_exec(a: &String, b: &String) -> (r: bool)
    ensures
        r == key_lt(a@, b@),
{
    let ab = a.as_str().as_bytes_vec();
    let bb = b.as_str().as_bytes_vec();
    bytes_lt_vec(&ab, &bb)
}

/// Where an inserted key belongs: the inner insertion at `j` is the ordered
/// insertion whenever every key before `j` lies below the new key and the key
/// at `j`, if any, does not.
proof fn lemma_map_insert_at(m: Seq<(Seq<char>, Seq<u8>)>, k: Seq<char>, v: Seq<u8>, j: int)
    requires
        0 <= j <= m.len(),
        forall|i: int| 0 <= i < j ==> key_lt(#[trigger] m[i].0, k),
        j < m.len() ==> !key_lt(m[j].0, k),
    ensures
        j < m.len() && m[j].0 == k ==> map_insert(m, k, v) == m.update(j, (k, v)),
        !(j < m.len() && m[j].0 == k) ==> map_insert(m, k, v) == m.insert(j, (k, v)),
    decreases m.len(),
{
    if m.len() == 0 {
        assert(map_insert(m, k, v) =~= m.insert(0, (k, v)));
    } else if j == 0 {
        if m[0].0 == k {
            assert(seq![(k, v)] + m.drop_first() =~= m.update(0, (k, v)));
        } else {
            crate::credential::lemma_key_lt_order(k, m[0].0, m[0].0);
            assert(key_lt(k, m[0].0));
            assert(seq![(k, v)] + m =~= m.insert(0, (k, v)));
        }
    } else {
        assert(key_lt(m[0].0, k));
        crate::credential::lemma_key_lt_order(m[0].0, k, k);
        assert(!key_lt(k, m[0].0) && k != m[0].0);
        assert(forall|i: int| 0 <= i < j - 1 ==> key_lt(#[trigger] m.drop_first()[i].0, k));
        assert(j - 1 < m.drop_first().len() ==> !key_lt(m.drop_first()[j - 1].0, k));
        lemma_map_insert_at(m.drop_first(), k, v, j - 1);
        if j < m.len() && m[j].0 == k {
            assert(m.drop_first()[j - 1] == m[j]);
            assert(seq![m[0]] + m.drop_first().update(j - 1, (k, v)) =~= m.update(j, (k, v)));
        } else {
            assert(seq![m[0]] + m.drop_first().insert(j - 1, (k, v)) =~= m.insert(j, (k, v)));
        }
    }
}

/// The place an inserted key takes: the first position whose key does not lie
/// below it.
fn find_pos(out: &Vec<(String, Vec<u8>)>, key: &String) -> (j: usize)
    ensures
        j <= out@.len(),
        forall|i: int| 0 <= i < j ==> key_lt(#[trigger] out@[i].0@, key@),
        j < out@.len() ==> !key_lt(out@[j as int].0@, key@),
{
    let mut j: usize = 0;
    while j < out.len()
        invariant
            0 <= j <= out@.len(),
            forall|i: int| 0 <= i < j ==> key_lt(#[trigger] out@[i].0@, key@),
        decreases out@.len() - j,
    {
        if !key_lt_exec(&out[j].0, key) {
            return j;
        }
        j = j + 1;
    }
    j
}

/// Inserts an attribute entry into entries kept in ascending key order,
/// replacing an entry with an equal key.
fn insert_attr_pair(out: &mut Vec<(String, Vec<u8>)>, key: String, value: Vec<u8>)
    ensures
        pairs_view(final(out)@) == map_insert(pairs_view(old(out)@), key@, value@),
{
    let ghost m = pairs_view(out@);
    let j = find_pos(out, &key);
    proof {
        assert(forall|i: int| 0 <= i < m.len() ==> #[trigger] m[i].0 == out@[i].0@);
        lemma_map_insert_at(m, key@, value@, j as int);
    }
    if j < out.len() && out[j].0 == key {
        out.set(j, (key, value));
        proof {
            assert(pairs_view(out@) =~= m.update(j as int, (key@, value@)));
        }
    } else {
        out.insert(j, (key, value));
        proof {
            assert(pairs_view(out@) =~= m.insert(j as int, (key@, value@)));
        }
    }
}

/// Folds wire-order attribute entries into the key-ordered map, a later entry
/// overwriting an earlier one with the same key.
fn fold_attr_pairs(raw: &Vec<(String, Vec<u8>)>) -> (r: Vec<(String, Vec<u8>)>)
    ensures
        pairs_view(r@) == fold_pairs(pairs_view(raw@)),
{
    let ghost pv = pairs_view(raw@);
    let mut out: Vec<(String, Vec<u8>)> = Vec::new();
    proof {
        assert(pv.take(0) =~= Seq::<(Seq<char>, Seq<u8>)>::empty());
        assert(pairs_view(out@) =~= fold_pairs(pv.take(0)));
    }
    let mut k: usize = 0;
    while k < raw.len()
        invariant
            0 <= k <= raw@.len(),
            pv == pairs_view(raw@),
            pv.len() == raw@.len(),
            pairs_view(out@) == fold_pairs(pv.take(k as int)),
        decreases raw@.len() - k,
    {
        let key = raw[k].0.clone();
        let value = copy_bytes(&raw[k].1);
        insert_attr_pair(&mut out, key, value);
        proof {
            assert(pv.take(k + 1 as int).drop_last() =~= pv.take(k as int));
            assert(pv.take(k + 1 as int).last() == pv[k as int]);
            assert(pv[k as int] == (raw@[k as int].0@, raw@[k as int].1@));
        }
        k = k + 1;
    }
    proof {
        assert(pv.take(pv.len() as int) =~= pv);
    }
    out
}

/// Reads an attribute set at `pos`.
fn decode_attributes(bytes: &Vec<u8>, pos: usize) -> (r: Option<(Attributes, usize)>)
    ensures
        match r {
            Some((a, p)) => parse_attributes(bytes@, pos as int) == Some((a@, p as int)),
            None => parse_attributes(bytes@, pos as int) is None,
        },
{
    match decode_head(bytes, pos, HEAD_MAP) {
        Some((n, i0)) => {
            let (i1, rem) = match decode_leading_unknowns(bytes, i0, n, 1, 2) {
                Some(p) => p,
                None => {
                    return None;
                },
            };
            if rem < 2 {
                return None;
            }
            match decode_uint(bytes, i1) {
                Some((t1, i2)) => {
                    if t1 != 1 {
                        return None;
                    }
                    match decode_uint(bytes, i2) {
                        Some((schema, i3)) => match decode_uint(bytes, i3) {
                            Some((t2, i4)) => {
                                if t2 != 2 {
                                    return None;
                                }
                                match decode_head(bytes, i4, HEAD_MAP) {
                                    Some((m, i5)) => match decode_attr_pairs(bytes, i5, m) {
                                        Some((pairs, i6)) => {
                                            let map = fold_attr_pairs(&pairs);
                                            match decode_unknown_fields(bytes, i6, rem - 2) {
                                                Some(e) => Some(
                                                    (
                                                        Attributes {
                                                            schema: CredentialSchemaIdentifier(
                                                                schema,
                                                            ),
                                                            map,
                                                        },
                                                        e,
                                                    ),
                                                ),
                                                None => None,
                                            }
                                        },
                                        None => None,
                                    },
                                    None => None,
                                }
                            },
                            None => None,
                        },
                        None => None,
                    }
                },
                None => None,
            }
        },
        None => None,
    }
}

/// Reads a signature at `pos`.
fn decode_signature(bytes: &Vec<u8>, pos: usize) -> (r: Option<(CredentialSignature, usize)>)
    ensures
        match r {
            Some((s, p)) => parse_signature(bytes@, pos as int) == Some((s@, p as int)),
            None => parse_signature(bytes@, pos as int) is None,
        },
{
    match decode_head(bytes, pos, HEAD_ARRAY) {
        Some((n, i1)) => {
            if n != 2 {
                return None;
            }
            match decode_uint(bytes, i1) {
                Some((t, i2)) => match decode_bytes(bytes, i2) {
                    Some((b, i3)) => {
                        if b.len() != 64 {
                            return None;
                        }
                        if t == 1 {
                            Some((CredentialSignature::EdDSACurve25519(EdDSACurve25519Signature(b)), i3))
                        } else if t == 2 {
                            Some(
                                (
                                    CredentialSignature::ECDSASHA256CurveP256(
                                        ECDSASHA256CurveP256Signature(b),
                                    ),
                                    i3,
                                ),
                            )
                        } else {
                            None
                        }
                    },
                    None => None,
                },
                None => None,
            }
        },
        None => None,
    }
}

/// Reads a credential's content at `pos`.
fn decode_credential_data_at(bytes: &Vec<u8>, pos: usize) -> (r: Option<(CredentialData, usize)>)
    ensures
        match r {
            Some((d, p)) => parse_credential_data(bytes@, pos as int) == Some((d@, p as int)),
            None => parse_credential_data(bytes@, pos as int) is None,
        },
{
    match decode_head(bytes, pos, HEAD_MAP) {
        Some((n, i0)) => match decode_leading_unknowns(bytes, i0, n, 1, 5) {
            None => None,
            Some((i1, rem)) => match decode_opt_bytes_field(bytes, i1, 1) {
            Some((subject, i2)) => match decode_opt_bytes_field(bytes, i2, 2) {
                Some((chash, i3)) => match decode_uint(bytes, i3) {
                    Some((t3, i4)) => {
                        if t3 != 3 {
                            return None;
                        }
                        match decode_attributes(bytes, i4) {
                            Some((attrs, i5)) => match decode_uint(bytes, i5) {
                                Some((t4, i6)) => {
                                    if t4 != 4 {
                                        return None;
                                    }
                                    match decode_uint(bytes, i6) {
                                        Some((created, i7)) => match decode_uint(bytes, i7) {
                                            Some((t5, i8)) => {
                                                if t5 != 5 {
                                                    return None;
                                                }
                                                match decode_uint(bytes, i8) {
                                                    Some((expires, i9)) => {
                                                        let known: u64 = 3 + (if subject.is_some() {
                                                            1
                                                        } else {
                                                            0
                                                        }) + (if chash.is_some() {
                                                            1
                                                        } else {
                                                            0
                                                        });
                                                        if rem < known {
                                                            return None;
                                                        }
                                                        match decode_unknown_fields(
                                                            bytes,
                                                            i9,
                                                            rem - known,
                                                        ) {
                                                            Some(e) => Some(
                                                                (
                                                                    CredentialData {
                                                                        subject: match subject {
                                                                            Some(b) => Some(
                                                                                Identifier(b),
                                                                            ),
                                                                            None => None,
                                                                        },
                                                                        subject_latest_change_hash:
                                                                            match chash {
                                                                            Some(b) => Some(
                                                                                ChangeHash(b),
                                                                            ),
                                                                            None => None,
                                                                        },
                                                                        subject_attributes: attrs,
                                                                        created_at:
                                                                            TimestampInSeconds(
                                                                            created,
                                                                        ),
                                                                        expires_at:
                                                                            TimestampInSeconds(
                                                                            expires,
                                                                        ),
                                                                    },
                                                                    e,
                                                                ),
                                                            ),
                                                            None => None,
                                                        }
                                                    },
                                                    None => None,
                                                }
                                            },
                                            None => None,
                                        },
                                        None => None,
                                    }
                                },
                                None => None,
                            },
                            None => None,
                        }
                    },
                    None => None,
                },
                None => None,
            },
                None => None,
            },
        },
        None => None,
    }
}

/// Decodes a credential's content from its wire bytes; the bytes must hold
/// exactly one encoded structure.
pub fn decode_credential_data(bytes: &Vec<u8>) -> (r: Result<CredentialData, DecodeError>)
    ensures
        match parse_credential_data(bytes@, 0) {
            Some((v, p)) => if p == bytes@.len() {
                r matches Ok(d) && d@ == v
            } else {
                r is Err
            },
            None => r is Err,
        },
{
    match decode_credential_data_at(bytes, 0) {
        Some((d, p)) => if p == bytes.len() {
            Ok(d)
        } else {
            Err(DecodeError)
        },
        None => Err(DecodeError),
    }
}

/// Reads a credential at `pos`.
fn decode_credential_at(bytes: &Vec<u8>, pos: usize) -> (r: Option<(Credential, usize)>)
    ensures
        match r {
            Some((c, p)) => parse_credential(bytes@, pos as int) == Some((c@, p as int)),
            None => parse_credential(bytes@, pos as int) is None,
        },
{
    match decode_head(bytes, pos, HEAD_MAP) {
        Some((n, i0)) => {
            let (i1, rem) = match decode_leading_unknowns(bytes, i0, n, 1, 2) {
                Some(p) => p,
                None => {
                    return None;
                },
            };
            if rem < 2 {
                return None;
            }
            match decode_uint(bytes, i1) {
                Some((t1, i2)) => {
                    if t1 != 1 {
                        return None;
                    }
                    match decode_bytes(bytes, i2) {
                        Some((data, i3)) => match decode_uint(bytes, i3) {
                            Some((t2, i4)) => {
                                if t2 != 2 {
                                    return None;
                                }
                                match decode_signature(bytes, i4) {
                                    Some((sig, i5)) => match decode_unknown_fields(
                                        bytes,
                                        i5,
                                        rem - 2,
                                    ) {
                                        Some(e) => Some((Credential { data, signature: sig }, e)),
                                        None => None,
                                    },
                                    None => None,
                                }
                            },
                            None => None,
                        },
                        None => None,
                    }
                },
                None => None,
            }
        },
        None => None,
    }
}

/// Decodes a credential from its wire bytes; the bytes must hold exactly one
/// encoded structure.
pub fn decode_credential(bytes: &Vec<u8>) -> (r: Result<Credential, DecodeError>)
    ensures
        match parse_credential(bytes@, 0) {
            Some((v, p)) => if p == bytes@.len() {
                r matches Ok(c) && c@ == v
            } else {
                r is Err
            },
            None => r is Err,
        },
{
    match decode_credential_at(bytes, 0) {
        Some((c, p)) => if p == bytes.len() {
            Ok(c)
        } else {
            Err(DecodeError)
        },
        None => Err(DecodeError),
    }
}

/// Reads a versioned envelope at `pos`.
fn decode_versioned_data_at(bytes: &Vec<u8>, pos: usize) -> (r: Option<(VersionedData, usize)>)
    ensures
        match r {
            Some((v, p)) => parse_versioned_data(bytes@, pos as int) == Some((v@, p as int)),
            None => parse_versioned_data(bytes@, pos as int) is None,
        },
{
    match decode_head(bytes, pos, HEAD_MAP) {
        Some((n, i0)) => {
            let (i1, rem) = match decode_leading_unknowns(bytes, i0, n, 1, 2) {
                Some(p) => p,
                None => {
                    return None;
                },
            };
            if rem < 2 {
                return None;
            }
            match decode_uint(bytes, i1) {
                Some((t1, i2)) => {
                    if t1 != 1 {
                        return None;
                    }
                    match decode_uint(bytes, i2) {
                        Some((version, i3)) => match decode_uint(bytes, i3) {
                            Some((t2, i4)) => {
                                if t2 != 2 {
                                    return None;
                                }
                                match decode_bytes(bytes, i4) {
                                    Some((data, i5)) => match decode_unknown_fields(
                                        bytes,
                                        i5,
                                        rem - 2,
                                    ) {
                                        Some(e) => Some((VersionedData { version, data }, e)),
                                        None => None,
                                    },
                                    None => None,
                                }
                            },
                            None => None,
                        },
                        None => None,
                    }
                },
                None => None,
            }
        },
        None => None,
    }
}

/// Decodes a versioned envelope from its wire bytes; the bytes must hold
/// exactly one encoded structure.
pub fn decode_versioned_data(bytes: &Vec<u8>) -> (r: Result<VersionedData, DecodeError>)
    ensures
        match parse_versioned_data(bytes@, 0) {
            Some((v, p)) => if p == bytes@.len() {
                r matches Ok(d) && d@ == v
            } else {
                r is Err
            },
            None => r is Err,
        },
{
    match decode_versioned_data_at(bytes, 0) {
        Some((v, p)) => if p == bytes.len() {
            Ok(v)
        } else {
            Err(DecodeError)
        },
        None => Err(DecodeError),
    }
}

} // verus!
