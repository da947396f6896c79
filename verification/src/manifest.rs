//! The decoded manifest and the decode entry points.

use vstd::prelude::*;

use crate::cms::{
    cms_aia_of, cms_aki_of, cms_content_type_of, cms_envelope, cms_payload_of, cms_signing_time_of,
    cms_sia_of, cms_ski_of, cms_well_formed, view_opt_bytes, view_opt_i64, view_opt_string,
};
use crate::content::{decode_manifest_content, spec_manifest, FileAndHash, SpecFields};
use crate::number::{bytes_eq, ManifestNumber};

verus! {

/// The object identifier of RPKI manifest content, as its raw body bytes:
/// the eContentType a manifest envelope must declare.
pub open spec fn manifest_content_oid() -> Seq<u8> {
    seq![0x2Au8, 0x86, 0x48, 0x86, 0xF7, 0x0D, 0x01, 0x09, 0x10, 0x01, 0x1A]
}

/// Whether `oid` is the manifest eContentType identifier.
pub fn is_manifest_content_type(oid: &[u8]) -> (r: bool)
    ensures
        r == (oid@ == manifest_content_oid()),
{
    if oid.len() != 11 {
        proof {
            assert(oid@.len() != manifest_content_oid().len());
        }
        return false;
    }
    let r = oid[0] == 0x2A && oid[1] == 0x86 && oid[2] == 0x48 && oid[3] == 0x86 && oid[4] == 0xF7
        && oid[5] == 0x0D && oid[6] == 0x01 && oid[7] == 0x09 && oid[8] == 0x10 && oid[9] == 0x01
        && oid[10] == 0x1A;
    proof {
        if r {
            assert(oid@ =~= manifest_content_oid());
        } else {
            assert(oid@ != manifest_content_oid());
        }
    }
    r
}

/// A decoded manifest: the certificate identifiers, the signing time, the
/// validity window, the retrieval locations, the sequence number and the
/// file list. Either every mandatory field is populated or decoding yielded
/// nothing; no partial value exists.
#[derive(Debug, Hash)]
pub struct Manifest {
    /// Subject key identifier of the signing certificate.
    pub ski: Vec<u8>,
    /// Authority key identifier, absent when the issuer omitted it.
    pub aki: Option<Vec<u8>>,
    /// The CMS signing-time attribute, in Unix seconds, when carried.
    pub signing_time: Option<i64>,
    /// Start of the validity window, in Unix seconds.
    pub this_update: i64,
    /// End of the validity window, in Unix seconds.
    pub next_update: i64,
    /// CA-issuer access location, when the certificate carried one.
    pub aia: Option<String>,
    /// Signed-object access location, when the certificate carried one.
    pub sia: Option<String>,
    /// The manifest sequence number.
    pub manifest_number: ManifestNumber,
    /// The file entries, in declaration order.
    pub file_list: Vec<FileAndHash>,
}

/// Whether two optional byte strings hold the same bytes.
pub open spec fn opt_bytes_same(a: Option<Vec<u8>>, b: Option<Vec<u8>>) -> bool {
    match (a, b) {
        (Some(x), Some(y)) => x@ == y@,
        (None, None) => true,
        _ => false,
    }
}

/// Whether two optional strings hold the same text.
pub open spec fn opt_string_same(a: Option<String>, b: Option<String>) -> bool {
    match (a, b) {
        (Some(x), Some(y)) => x@ == y@,
        (None, None) => true,
        _ => false,
    }
}

impl Manifest {
    /// The manifest number's magnitude is canonical.
    pub open spec fn wf(self) -> bool {
        self.manifest_number.wf()
    }

    /// Whether the payload-derived fields of this manifest render the
    /// decoded payload `sf`.
    pub open spec fn renders_payload(self, sf: SpecFields) -> bool {
        &&& self.manifest_number.magnitude@ == sf.number
        &&& self.this_update == sf.this_update
        &&& self.next_update == sf.next_update
        &&& self.file_list@.len() == sf.entries.len()
        &&& (forall|k: int|
            0 <= k < sf.entries.len() ==> (#[trigger] self.file_list@[k]).renders(sf.entries[k]))
    }

    /// Whether two manifests agree field by field, comparing contents rather
    /// than allocations.
    pub open spec fn same_view(self, other: Manifest) -> bool {
        &&& self.ski@ == other.ski@
        &&& opt_bytes_same(self.aki, other.aki)
        &&& self.signing_time == other.signing_time
        &&& self.this_update == other.this_update
        &&& self.next_update == other.next_update
        &&& opt_string_same(self.aia, other.aia)
        &&& opt_string_same(self.sia, other.sia)
        &&& self.manifest_number.magnitude@ == other.manifest_number.magnitude@
        &&& self.file_list@.len() == other.file_list@.len()
        &&& (forall|k: int|
            0 <= k < self.file_list@.len() ==> (#[trigger] self.file_list@[k]).file@
                == other.file_list@[k].file@ && self.file_list@[k].hash@
                == other.file_list@[k].hash@)
    }

    /// Decodes a manifest from the raw bytes of its CMS signed object.
    ///
    /// The envelope comes from the external library; the payload is decoded
    /// here. The result is pinned to the bytes: decoding succeeds exactly
    /// when [`decode_admits`] holds of them, and then every field is the one
    /// the bytes describe ([`manifest_from_bytes`]).
    pub fn from_content(content: &[u8]) -> (r: Option<Manifest>)
        ensures
            (r is Some <==> decode_admits(content@)),
            r matches Some(m) ==> m.wf() && manifest_from_bytes(content@, m),
    {
        let env = match cms_envelope(content) {
            None => { return None },
            Some(env) => env,
        };
        if !is_manifest_content_type(env.content_type.as_slice()) {
            return None;
        }
        assemble_manifest(
            env.ski,
            env.aki,
            env.signing_time,
            env.aia,
            env.sia,
            env.payload.as_slice(),
        )
    }

    /// The number of file entries.
    pub fn __len__(&self) -> (r: usize)
        ensures
            r == self.file_list@.len(),
    {
        self.file_list.len()
    }

    /// The entry at `index`: the matching entry below the length, and an
    /// out-of-range error from the length up.
    pub fn __getitem__(&self, index: usize) -> (r: Result<FileAndHash, IndexError>)
        ensures
            index < self.file_list@.len() ==> (r matches Ok(fh) && fh.file@
                == self.file_list@[index as int].file@ && fh.hash@
                == self.file_list@[index as int].hash@),
            index >= self.file_list@.len() ==> r == Result::<FileAndHash, IndexError>::Err(
                IndexError::OutOfRange,
            ),
    {
        if index < self.file_list.len() {
            Ok(self.file_list[index].clone())
        } else {
            Err(IndexError::OutOfRange)
        }
    }
}

/// The failure of an entry accessor: the index is not below the length.
#[derive(Clone, Copy, PartialEq, Eq, Structural, Debug)]
pub enum IndexError {
    OutOfRange,
}

/// Assembles a manifest from the envelope's plain outputs and the payload
/// bytes. Succeeds exactly when the payload decodes, and then copies every
/// envelope field verbatim and renders the payload fields exactly.
pub fn assemble_manifest(
    ski: Vec<u8>,
    aki: Option<Vec<u8>>,
    signing_time: Option<i64>,
    aia: Option<String>,
    sia: Option<String>,
    payload: &[u8],
) -> (r: Option<Manifest>)
    ensures
        (r is Some <==> spec_manifest(payload@) is Some),
        r matches Some(m) ==> m.wf() && m.renders_payload(spec_manifest(payload@)->Some_0)
            && m.ski == ski && m.aki == aki && m.signing_time == signing_time && m.aia == aia
            && m.sia == sia,
{
    let fields = match decode_manifest_content(payload) {
        Err(_) => { return None },
        Ok(f) => f,
    };
    Some(
        Manifest {
            ski,
            aki,
            signing_time,
            this_update: fields.this_update,
            next_update: fields.next_update,
            aia,
            sia,
            manifest_number: fields.manifest_number,
            file_list: fields.file_list,
        },
    )
}

/// The signing time of a CMS signed object, in Unix seconds: nothing when
/// the envelope does not decode or the signer carried no signing-time
/// attribute, the attribute's exact instant otherwise.
pub fn cms_signing_time(content: &[u8]) -> (r: Option<i64>)
    ensures
        !cms_well_formed(content@) ==> r is None,
        cms_well_formed(content@) ==> view_opt_i64(r) == cms_signing_time_of(content@),
{
    match cms_envelope(content) {
        None => None,
        Some(env) => env.signing_time,
    }
}

/// Whether the whole pipeline accepts the buffer: the envelope decodes, it
/// declares manifest content, and the payload decodes.
pub open spec fn decode_admits(bytes: Seq<u8>) -> bool {
    &&& cms_well_formed(bytes)
    &&& cms_content_type_of(bytes) == manifest_content_oid()
    &&& spec_manifest(cms_payload_of(bytes)) is Some
}

/// Whether `m` is exactly the manifest the buffer `bytes` describes: every
/// envelope field is the one the envelope yields for those bytes, and the
/// payload fields render the decoded payload.
pub open spec fn manifest_from_bytes(bytes: Seq<u8>, m: Manifest) -> bool {
    &&& m.ski@ == cms_ski_of(bytes)
    &&& view_opt_bytes(m.aki) == cms_aki_of(bytes)
    &&& view_opt_i64(m.signing_time) == cms_signing_time_of(bytes)
    &&& view_opt_string(m.aia) == cms_aia_of(bytes)
    &&& view_opt_string(m.sia) == cms_sia_of(bytes)
    &&& m.renders_payload(spec_manifest(cms_payload_of(bytes))->Some_0)
}

/// Decoding is deterministic: any two results that `from_content`'s contract
/// admits for the same bytes are the same outcome — `None` both times, or
/// manifests that agree field by field.
pub proof fn lemma_decode_deterministic_end_to_end(
    bytes: Seq<u8>,
    r1: Option<Manifest>,
    r2: Option<Manifest>,
)
    requires
        (r1 is Some <==> decode_admits(bytes)),
        r1 matches Some(m) ==> manifest_from_bytes(bytes, m),
        (r2 is Some <==> decode_admits(bytes)),
        r2 matches Some(m) ==> manifest_from_bytes(bytes, m),
    ensures
        (r1 is Some <==> r2 is Some),
        (r1 is Some && r2 is Some) ==> r1->Some_0.same_view(r2->Some_0),
{
    if r1 is Some && r2 is Some {
        let m1 = r1->Some_0;
        let m2 = r2->Some_0;
        let sf = spec_manifest(cms_payload_of(bytes))->Some_0;
        assert forall|k: int| 0 <= k < m1.file_list@.len() implies (#[trigger] m1.file_list@[
            k
        ]).file@ == m2.file_list@[k].file@ && m1.file_list@[k].hash@ == m2.file_list@[k].hash@ by {
            assert(m1.file_list@[k].renders(sf.entries[k]));
            assert(m2.file_list@[k].renders(sf.entries[k]));
        }
    }
}

/// The standalone signing-time extraction agrees with the full decode: on
/// bytes the decode accepts, a result that `cms_signing_time`'s contract
/// admits equals the decoded manifest's own signing time.
pub proof fn lemma_signing_time_agrees(bytes: Seq<u8>, m: Manifest, t: Option<i64>)
    requires
        decode_admits(bytes),
        manifest_from_bytes(bytes, m),
        view_opt_i64(t) == cms_signing_time_of(bytes),
    ensures
        t == m.signing_time,
{
}

/// Whether two optional byte vectors hold the same bytes.
fn opt_bytes_eq(a: &Option<Vec<u8>>, b: &Option<Vec<u8>>) -> (r: bool)
    ensures
        r == opt_bytes_same(*a, *b),
{
    match (a, b) {
        (Some(x), Some(y)) => bytes_eq(x.as_slice(), y.as_slice()),
        (None, None) => true,
        _ => false,
    }
}

/// Whether two optional strings hold the same text.
fn opt_string_eq(a: &Option<String>, b: &Option<String>) -> (r: bool)
    ensures
        r == opt_string_same(*a, *b),
{
    match (a, b) {
        (Some(x), Some(y)) => <String as PartialEq>::eq(x, y),
        (None, None) => true,
        _ => false,
    }
}

/// Whether two file lists agree entry by entry.
#[verifier::loop_isolation(false)]
fn file_lists_eq(a: &Vec<FileAndHash>, b: &Vec<FileAndHash>) -> (r: bool)
    ensures
        r == (a@.len() == b@.len() && (forall|k: int|
            0 <= k < a@.len() ==> (#[trigger] a@[k]).file@ == b@[k].file@ && a@[k].hash@
                == b@[k].hash@)),
{
    if a.len() != b.len() {
        return false;
    }
    let n = a.len();
    let mut i: usize = 0;
    while i < n
        invariant
            0 <= i <= n,
            forall|k: int|
                0 <= k < i ==> (#[trigger] a@[k]).file@ == b@[k].file@ && a@[k].hash@
                    == b@[k].hash@,
        decreases n - i,
    {
        if !(a[i] == b[i]) {
            return false;
        }
        i += 1;
    }
    true
}

impl PartialEq for Manifest {
    fn eq(&self, other: &Manifest) -> (r: bool) {
        bytes_eq(self.ski.as_slice(), other.ski.as_slice()) && opt_bytes_eq(&self.aki, &other.aki)
            && self.signing_time == other.signing_time && self.this_update == other.this_update
            && self.next_update == other.next_update && opt_string_eq(&self.aia, &other.aia)
            && opt_string_eq(&self.sia, &other.sia) && bytes_eq(
            self.manifest_number.magnitude.as_slice(),
            other.manifest_number.magnitude.as_slice(),
        ) && file_lists_eq(&self.file_list, &other.file_list)
    }
}

impl vstd::std_specs::cmp::PartialEqSpecImpl for Manifest {
    open spec fn obeys_eq_spec() -> bool {
        true
    }

    open spec fn eq_spec(&self, other: &Manifest) -> bool {
        self.same_view(*other)
    }
}

} // verus!
