//! The trusted boundary to the external ASN.1/CMS/X.509 library.
//!
//! The envelope decoder below is the one place the crate calls the `rpki`
//! crate (and, through it, `bcder` and `chrono`). Decoding a CMS signed
//! object is a pure parse of the input bytes, and every envelope field —
//! payload, content type, certificate identifiers, access locations, signing
//! time — is read off the decoded object, so each is a function of the bytes
//! alone. The uninterpreted names below name those functions, and the
//! wrapper's contract ties its whole result to them on every input; the rest
//! of the crate, and the entry points' contracts, speak only of the names.

use vstd::prelude::*;

verus! {

/// Whether the CMS SignedData envelope decoder accepts the buffer — a pure
/// function of the bytes alone.
pub uninterp spec fn cms_well_formed(bytes: Seq<u8>) -> bool;

/// The eContentType object identifier (as its raw body bytes) of a
/// well-formed envelope.
pub uninterp spec fn cms_content_type_of(bytes: Seq<u8>) -> Seq<u8>;

/// The encapsulated content octets of a well-formed envelope, concatenated
/// in order.
pub uninterp spec fn cms_payload_of(bytes: Seq<u8>) -> Seq<u8>;

/// The subject key identifier of the embedded certificate of a well-formed
/// envelope.
pub uninterp spec fn cms_ski_of(bytes: Seq<u8>) -> Seq<u8>;

/// The authority key identifier of the embedded certificate, when the
/// issuer carried the extension.
pub uninterp spec fn cms_aki_of(bytes: Seq<u8>) -> Option<Seq<u8>>;

/// The CA-issuer access location of the embedded certificate, as URI text,
/// when the certificate carried one.
pub uninterp spec fn cms_aia_of(bytes: Seq<u8>) -> Option<Seq<char>>;

/// The signed-object access location of the embedded certificate, as URI
/// text, when the certificate carried one.
pub uninterp spec fn cms_sia_of(bytes: Seq<u8>) -> Option<Seq<char>>;

/// The signing-time signed attribute, in Unix seconds, when the signer
/// carried one.
pub uninterp spec fn cms_signing_time_of(bytes: Seq<u8>) -> Option<int>;

/// An optional byte vector, seen as its contents.
pub open spec fn view_opt_bytes(v: Option<Vec<u8>>) -> Option<Seq<u8>> {
    match v {
        Some(x) => Some(x@),
        None => None,
    }
}

/// An optional string, seen as its text.
pub open spec fn view_opt_string(v: Option<String>) -> Option<Seq<char>> {
    match v {
        Some(x) => Some(x@),
        None => None,
    }
}

/// An optional machine integer, seen as its value.
pub open spec fn view_opt_i64(v: Option<i64>) -> Option<int> {
    match v {
        Some(x) => Some(x as int),
        None => None,
    }
}

/// Everything the CMS envelope yields for a buffer, as plain values.
pub struct CmsEnvelope {
    /// The eContentType object identifier, as its raw body bytes.
    pub content_type: Vec<u8>,
    /// The encapsulated content octets.
    pub payload: Vec<u8>,
    /// Subject key identifier of the embedded certificate.
    pub ski: Vec<u8>,
    /// Authority key identifier, when the issuer carried it.
    pub aki: Option<Vec<u8>>,
    /// The signing-time attribute, in Unix seconds, when carried.
    pub signing_time: Option<i64>,
    /// CA-issuer access location, when carried.
    pub aia: Option<String>,
    /// Signed-object access location, when carried.
    pub sia: Option<String>,
}

/// Relies on rpki's `SignedObject::decode` (non-strict) — a pure parser of
/// its input that returns `Ok` exactly on a structurally well-formed CMS
/// signed object — and on its field accessors `content_type`, `content`
/// (through bcder's `OctetString::to_bytes`, which concatenates the content
/// segments in order), `cert`, `subject_key_identifier`,
/// `authority_key_identifier` (20-byte `KeyIdentifier`s), `ca_issuer`,
/// `signed_object` (rendered as URI text) and `signing_time` (through
/// chrono's `DateTime::timestamp`). Each accessor reads a field of the
/// decoded object, so every output is a function of the input bytes alone;
/// the contract ties each to its name above.
#[verifier::external_body]
pub(crate) fn cms_envelope(bytes: &[u8]) -> (r: Option<CmsEnvelope>)
    ensures
        r is Some <==> cms_well_formed(bytes@),
        r matches Some(env) ==> {
            &&& env.content_type@ == cms_content_type_of(bytes@)
            &&& env.payload@ == cms_payload_of(bytes@)
            &&& env.ski@ == cms_ski_of(bytes@)
            &&& env.ski@.len() == 20
            &&& view_opt_bytes(env.aki) == cms_aki_of(bytes@)
            &&& (env.aki matches Some(k) ==> k@.len() == 20)
            &&& view_opt_i64(env.signing_time) == cms_signing_time_of(bytes@)
            &&& view_opt_string(env.aia) == cms_aia_of(bytes@)
            &&& view_opt_string(env.sia) == cms_sia_of(bytes@)
        },
{
    let so = rpki::repository::sigobj::SignedObject::decode(bytes, false).ok()?;
    let cert = so.cert();
    Some(
        CmsEnvelope {
            content_type: so.content_type().as_ref().to_vec(),
            payload: so.content().to_bytes().as_ref().to_vec(),
            ski: cert.subject_key_identifier().as_slice().to_vec(),
            aki: cert.authority_key_identifier().map(|k| k.as_slice().to_vec()),
            signing_time: so.signing_time().map(|t| t.timestamp()),
            aia: cert.ca_issuer().map(|u| u.to_string()),
            sia: cert.signed_object().map(|u| u.to_string()),
        },
    )
}

} // verus!
