//! The manifest payload decoder.
//!
//! The encapsulated content of a manifest signed object is one DER SEQUENCE:
//! an optional version that must be zero, the manifest number (a non-negative
//! INTEGER of any width), two GeneralizedTime fields for the validity window,
//! the SHA-256 algorithm identifier, and the file list — a SEQUENCE of
//! (IA5String filename, BIT STRING hash) pairs in declaration order.
//!
//! [`spec_manifest`] says byte for byte which buffers decode and to what;
//! [`decode_manifest_content`] computes exactly that. Every length is
//! definite and checked against the buffer, and the outer SEQUENCE must span
//! the whole input, so a truncated buffer never decodes
//! ([`lemma_truncation_rejected`]).

use vstd::prelude::*;

use crate::civil::{civil_to_unix, civil_to_unix_exec, days_in_month_exec, valid_civil};
use crate::der::{read_header, spec_header};
use crate::number::{be_nat, canonical_magnitude, pow256, ManifestNumber};
use crate::text::{decode_entry_name, entry_name};

verus! {

pub const TAG_SEQUENCE: u8 = 0x30;

pub const TAG_INTEGER: u8 = 0x02;

pub const TAG_BIT_STRING: u8 = 0x03;

pub const TAG_OID: u8 = 0x06;

pub const TAG_IA5_STRING: u8 = 0x16;

pub const TAG_GENERALIZED_TIME: u8 = 0x18;

pub const TAG_CTX_0: u8 = 0xA0;

/// The object identifier of SHA-256, the one digest algorithm the manifest
/// profile admits for the file list.
pub open spec fn sha256_oid() -> Seq<u8> {
    seq![0x60u8, 0x86, 0x48, 0x01, 0x65, 0x03, 0x04, 0x02, 0x01]
}

/// One decoded file-list entry: the raw filename bytes and the hash bytes.
#[verifier::ext_equal]
pub ghost struct SpecEntry {
    pub file: Seq<u8>,
    pub hash: Seq<u8>,
}

/// The decoded payload fields: the manifest number's big-endian magnitude,
/// the validity window in Unix seconds, and the entries in declared order.
#[verifier::ext_equal]
pub ghost struct SpecFields {
    pub number: Seq<u8>,
    pub this_update: int,
    pub next_update: int,
    pub entries: Seq<SpecEntry>,
}

/// Consumes the optional version field at `i`. A present version must be the
/// explicitly tagged INTEGER zero; an absent one leaves the position alone.
pub open spec fn spec_version(b: Seq<u8>, i: int) -> Option<int> {
    if 0 <= i < b.len() && b[i] == TAG_CTX_0 {
        match spec_header(b, i) {
            None => None,
            Some((tag, s, e)) => match spec_header(b, s) {
                None => None,
                Some((itag, s2, e2)) => {
                    if itag == TAG_INTEGER && e2 == e && e2 - s2 == 1 && b[s2] == 0 {
                        Some(e)
                    } else {
                        None
                    }
                },
            },
        }
    } else {
        Some(i)
    }
}

/// Reads the manifest number at `i`: a minimally encoded, non-negative DER
/// INTEGER. Yields the big-endian magnitude (sign octet stripped) and the
/// position after the field.
pub open spec fn spec_number(b: Seq<u8>, i: int) -> Option<(Seq<u8>, int)> {
    match spec_header(b, i) {
        None => None,
        Some((tag, s, e)) => {
            if tag != TAG_INTEGER || e - s < 1 {
                None
            } else if b[s] >= 0x80 {
                // a negative number: the profile forbids it
                None
            } else if e - s > 1 && b[s] == 0 && b[s + 1] < 0x80 {
                // a redundant leading zero octet: not DER
                None
            } else {
                let mag = if b[s] == 0 {
                    b.subrange(s + 1, e)
                } else {
                    b.subrange(s, e)
                };
                Some((mag, e))
            }
        },
    }
}

/// Whether byte `c` is an ASCII decimal digit.
pub open spec fn is_digit(c: u8) -> bool {
    0x30 <= c <= 0x39
}

/// The value of the ASCII digit `c`.
pub open spec fn digit(c: u8) -> int {
    c - 0x30
}

/// The civil fields spelled by a 15-byte `YYYYMMDDHHMMSSZ` GeneralizedTime
/// body `c`: (year, month, day, hour, minute, second).
pub open spec fn spec_gt_civil(c: Seq<u8>) -> (int, int, int, int, int, int) {
    (
        digit(c[0]) * 1000 + digit(c[1]) * 100 + digit(c[2]) * 10 + digit(c[3]),
        digit(c[4]) * 10 + digit(c[5]),
        digit(c[6]) * 10 + digit(c[7]),
        digit(c[8]) * 10 + digit(c[9]),
        digit(c[10]) * 10 + digit(c[11]),
        digit(c[12]) * 10 + digit(c[13]),
    )
}

/// Whether the 15-byte GeneralizedTime body `c` is well-formed: fourteen
/// digits, a trailing `Z`, and a date the calendar admits.
pub open spec fn spec_gt_valid(c: Seq<u8>) -> bool {
    &&& c.len() == 15
    &&& (forall|k: int| 0 <= k < 14 ==> is_digit(#[trigger] c[k]))
    &&& c[14] == 0x5A
    &&& {
        let (y, m, d, h, mi, s) = spec_gt_civil(c);
        valid_civil(y, m, d, h, mi, s)
    }
}

/// Reads a GeneralizedTime field at `i`, yielding Unix seconds and the
/// position after the field.
pub open spec fn spec_time(b: Seq<u8>, i: int) -> Option<(int, int)> {
    match spec_header(b, i) {
        None => None,
        Some((tag, s, e)) => {
            if tag != TAG_GENERALIZED_TIME || e - s != 15 {
                None
            } else {
                let c = b.subrange(s, e);
                if spec_gt_valid(c) {
                    let (y, m, d, h, mi, sec) = spec_gt_civil(c);
                    Some((civil_to_unix(y, m, d, h, mi, sec), e))
                } else {
                    None
                }
            }
        },
    }
}

/// Consumes the file-hash algorithm identifier at `i`: the SHA-256 object
/// identifier, bare. Yields the position after the field.
pub open spec fn spec_alg(b: Seq<u8>, i: int) -> Option<int> {
    match spec_header(b, i) {
        None => None,
        Some((otag, s, e)) => {
            if otag != TAG_OID || b.subrange(s, e) != sha256_oid() {
                None
            } else {
                Some(e)
            }
        },
    }
}

/// Reads one file-list entry at `i`: a SEQUENCE of an IA5String filename and
/// a BIT STRING hash with no unused bits. Yields the raw filename bytes, the
/// hash bytes, and the position after the entry.
pub open spec fn spec_entry(b: Seq<u8>, i: int) -> Option<(SpecEntry, int)> {
    match spec_header(b, i) {
        None => None,
        Some((tag, s, e)) => {
            if tag != TAG_SEQUENCE {
                None
            } else {
                match spec_header(b, s) {
                    None => None,
                    Some((ftag, fs, fe)) => {
                        if ftag != TAG_IA5_STRING || fe > e {
                            None
                        } else {
                            match spec_header(b, fe) {
                                None => None,
                                Some((htag, hs, he)) => {
                                    if htag != TAG_BIT_STRING || he != e || he - hs < 1 || b[hs]
                                        != 0 {
                                        None
                                    } else {
                                        Some(
                                            (
                                                SpecEntry {
                                                    file: b.subrange(fs, fe),
                                                    hash: b.subrange(hs + 1, he),
                                                },
                                                e,
                                            ),
                                        )
                                    }
                                },
                            }
                        }
                    },
                }
            }
        },
    }
}

/// Reads file-list entries from `i` up to exactly `e`, in declaration order.
pub open spec fn spec_entries(b: Seq<u8>, i: int, e: int) -> Option<Seq<SpecEntry>>
    decreases e - i,
{
    if i > e {
        None
    } else if i == e {
        Some(Seq::empty())
    } else {
        match spec_entry(b, i) {
            None => None,
            Some((entry, j)) => {
                if j <= i || j > e {
                    None
                } else {
                    match spec_entries(b, j, e) {
                        None => None,
                        Some(rest) => Some(seq![entry] + rest),
                    }
                }
            },
        }
    }
}

/// What the whole payload decodes to: the outer SEQUENCE must span the buffer
/// exactly, its fields follow in order, and the file list runs to its end.
pub open spec fn spec_manifest(b: Seq<u8>) -> Option<SpecFields> {
    match spec_header(b, 0) {
        None => None,
        Some((tag, s, e)) => {
            if tag != TAG_SEQUENCE || e != b.len() {
                None
            } else {
                match spec_version(b, s) {
                    None => None,
                    Some(i1) => match spec_number(b, i1) {
                        None => None,
                        Some((mag, i2)) => match spec_time(b, i2) {
                            None => None,
                            Some((t1, i3)) => match spec_time(b, i3) {
                                None => None,
                                Some((t2, i4)) => match spec_alg(b, i4) {
                                    None => None,
                                    Some(i5) => match spec_header(b, i5) {
                                        None => None,
                                        Some((ltag, s6, e6)) => {
                                            if ltag != TAG_SEQUENCE || e6 != e {
                                                None
                                            } else {
                                                match spec_entries(b, s6, e6) {
                                                    None => None,
                                                    Some(entries) => Some(
                                                        SpecFields {
                                                            number: mag,
                                                            this_update: t1,
                                                            next_update: t2,
                                                            entries,
                                                        },
                                                    ),
                                                }
                                            }
                                        },
                                    },
                                },
                            },
                        },
                    },
                }
            }
        },
    }
}

/// Truncating a well-formed payload at any byte boundary strictly before its
/// end leaves nothing decodable: the outer SEQUENCE spans the whole buffer,
/// and its header, wherever still readable, declares a length that overruns
/// the cut.
pub proof fn lemma_truncation_rejected(b: Seq<u8>, n: int)
    requires
        spec_manifest(b) is Some,
        0 <= n < b.len(),
    ensures
        spec_manifest(b.take(n)) is None,
{
    let p = b.take(n);
    let (tag, s, e) = spec_header(b, 0)->Some_0;
    assert(e == b.len());
    assert(forall|k: int| 0 <= k < p.len() ==> p[k] == b[k]);
    crate::der::lemma_header_truncated(b, p, 0);
}

/// The big-endian bytes of `n` on exactly `k` octets.
pub open spec fn nat_to_be(n: nat, k: nat) -> Seq<u8>
    decreases k,
{
    if k == 0 {
        Seq::empty()
    } else {
        nat_to_be(n / 256, (k - 1) as nat) + seq![(n % 256) as u8]
    }
}

/// How many octets the minimal long-form length encoding of `n` uses, for
/// `n` below 2^32.
pub open spec fn len_octets(n: nat) -> nat {
    if n < 0x100 {
        1
    } else if n < 0x10000 {
        2
    } else if n < 0x100_0000 {
        3
    } else {
        4
    }
}

/// The minimal DER encoding of the definite length `n`, for `n` below 2^32.
pub open spec fn enc_len(n: nat) -> Seq<u8> {
    if n < 0x80 {
        seq![n as u8]
    } else {
        seq![(0x80 + len_octets(n)) as u8] + nat_to_be(n, len_octets(n))
    }
}

/// The DER TLV with tag `tag` and contents `c`.
pub open spec fn enc_tlv(tag: u8, c: Seq<u8>) -> Seq<u8> {
    seq![tag] + enc_len(c.len()) + c
}

/// The encoding of one file-list entry with filename bytes `file` and hash
/// bytes `hash`.
pub open spec fn enc_entry(file: Seq<u8>, hash: Seq<u8>) -> Seq<u8> {
    enc_tlv(
        TAG_SEQUENCE,
        enc_tlv(TAG_IA5_STRING, file) + enc_tlv(TAG_BIT_STRING, seq![0u8] + hash),
    )
}

/// The encoding of a file list: each entry's encoding, in declared order.
pub open spec fn enc_entries(ents: Seq<SpecEntry>) -> Seq<u8>
    decreases ents.len(),
{
    if ents.len() == 0 {
        Seq::empty()
    } else {
        enc_entry(ents[0].file, ents[0].hash) + enc_entries(ents.drop_first())
    }
}

/// Entries whose filename and hash each fit in 2^24 octets, so that every
/// length in their encoding is encodable.
pub open spec fn bounded_entries(ents: Seq<SpecEntry>) -> bool {
    forall|k: int|
        0 <= k < ents.len() ==> (#[trigger] ents[k]).file.len() < 0x100_0000 && ents[k].hash.len()
            < 0x100_0000
}

/// The small powers of 256, spelled out.
proof fn lemma_pow256_values()
    ensures
        pow256(0) == 1,
        pow256(1) == 0x100,
        pow256(2) == 0x10000,
        pow256(3) == 0x100_0000,
        pow256(4) == 0x1_0000_0000,
{
    assert(pow256(0) == 1);
    assert(pow256(1) == 0x100);
    assert(pow256(2) == 0x10000);
    assert(pow256(3) == 0x100_0000);
    assert(pow256(4) == 0x1_0000_0000);
}

/// `nat_to_be` yields exactly `k` octets.
proof fn lemma_nat_to_be_len(n: nat, k: nat)
    ensures
        nat_to_be(n, k).len() == k,
    decreases k,
{
    if k > 0 {
        lemma_nat_to_be_len(n / 256, (k - 1) as nat);
    }
}

/// Reading back the big-endian octets of `n` gives `n`.
proof fn lemma_be_nat_nat_to_be(n: nat, k: nat)
    requires
        n < pow256(k),
    ensures
        be_nat(nat_to_be(n, k)) == n,
    decreases k,
{
    if k == 0 {
    } else {
        lemma_nat_to_be_len(n / 256, (k - 1) as nat);
        assert(nat_to_be(n, k).drop_last() =~= nat_to_be(n / 256, (k - 1) as nat));
        assert(nat_to_be(n, k).last() == (n % 256) as u8);
        vstd::arithmetic::div_mod::lemma_multiply_divide_lt(
            n as int,
            pow256((k - 1) as nat) as int,
            256,
        );
        lemma_be_nat_nat_to_be(n / 256, (k - 1) as nat);
        vstd::arithmetic::div_mod::lemma_fundamental_div_mod(n as int, 256);
    }
}

/// The leading octet of a `k`-octet big-endian value of full width is not
/// zero.
proof fn lemma_nat_to_be_first(n: nat, k: nat)
    requires
        k >= 1,
        pow256((k - 1) as nat) <= n < pow256(k),
    ensures
        nat_to_be(n, k)[0] != 0,
    decreases k,
{
    if k == 1 {
        vstd::arithmetic::div_mod::lemma_small_mod(n, 256);
        assert(nat_to_be(n / 256, 0) =~= Seq::<u8>::empty());
        assert(nat_to_be(n, 1)[0] == (n % 256) as u8);
    } else {
        lemma_nat_to_be_len(n / 256, (k - 1) as nat);
        assert(nat_to_be(n, k)[0] == nat_to_be(n / 256, (k - 1) as nat)[0]);
        assert(pow256((k - 1) as nat) == 256 * pow256((k - 2) as nat));
        vstd::arithmetic::div_mod::lemma_div_is_ordered(
            pow256((k - 1) as nat) as int,
            n as int,
            256,
        );
        vstd::arithmetic::div_mod::lemma_div_multiples_vanish(pow256((k - 2) as nat) as int, 256);
        vstd::arithmetic::div_mod::lemma_multiply_divide_lt(
            n as int,
            pow256((k - 1) as nat) as int,
            256,
        );
        lemma_nat_to_be_first(n / 256, (k - 1) as nat);
    }
}

/// How long the encoded length of `n` is: one octet in short form, the count
/// octet and the length octets in long form.
proof fn lemma_enc_len_len(n: nat)
    requires
        n < 0x1_0000_0000,
    ensures
        1 <= enc_len(n).len() <= 5,
        enc_len(n).len() == if n < 0x80 {
            1int
        } else {
            1int + len_octets(n)
        },
{
    if n >= 0x80 {
        lemma_nat_to_be_len(n, len_octets(n));
    }
}

/// A TLV written at position `i` of a buffer reads back as its own header:
/// the tag, the contents after the encoded length, and the contents' end.
pub proof fn lemma_header_of_tlv(b: Seq<u8>, i: int, tag: u8, c: Seq<u8>)
    requires
        0 <= i,
        c.len() < 0x1_0000_0000,
        i + enc_tlv(tag, c).len() <= b.len(),
        b.subrange(i, i + enc_tlv(tag, c).len()) == enc_tlv(tag, c),
    ensures
        spec_header(b, i) == Some(
            (tag, i + 1 + enc_len(c.len()).len(), i + enc_tlv(tag, c).len()),
        ),
{
    let n = c.len();
    let enc = enc_tlv(tag, c);
    lemma_pow256_values();
    assert forall|q: int| 0 <= q < enc.len() implies b[i + q] == enc[q] by {
        assert(b.subrange(i, i + enc.len())[q] == b[i + q]);
    }
    if n < 0x80 {
        assert(enc[0] == tag);
        assert(enc[1] == n as u8);
        assert(b[i] == tag && b[i + 1] == n as u8);
        assert(spec_header(b, i) == Some((tag, i + 2, i + 2 + n)));
    } else {
        let k = len_octets(n);
        lemma_nat_to_be_len(n, k);
        assert(enc[0] == tag);
        assert(enc[1] == (0x80 + k) as u8);
        assert forall|j: int| 0 <= j < k implies enc[2 + j] == nat_to_be(n, k)[j] by {}
        assert(b.subrange(i + 2, i + 2 + k) =~= nat_to_be(n, k));
        lemma_be_nat_nat_to_be(n, k);
        lemma_nat_to_be_first(n, k);
        assert(b[i + 2] != 0);
        assert(spec_header(b, i) == Some((tag, i + 2 + k, i + 2 + k + n)));
    }
}

/// One encoded entry written at position `i` reads back as exactly that
/// entry, ending where its encoding ends.
pub proof fn lemma_entry_roundtrip(b: Seq<u8>, i: int, file: Seq<u8>, hash: Seq<u8>)
    requires
        0 <= i,
        file.len() < 0x100_0000,
        hash.len() < 0x100_0000,
        i + enc_entry(file, hash).len() <= b.len(),
        b.subrange(i, i + enc_entry(file, hash).len()) == enc_entry(file, hash),
    ensures
        spec_entry(b, i) matches Some((se, j)) && se.file == file && se.hash == hash && j == i
            + enc_entry(file, hash).len(),
{
    let inner1 = enc_tlv(TAG_IA5_STRING, file);
    let bits = seq![0u8] + hash;
    let inner2 = enc_tlv(TAG_BIT_STRING, bits);
    let c = inner1 + inner2;
    let enc = enc_entry(file, hash);
    lemma_enc_len_len(file.len());
    lemma_enc_len_len(bits.len());
    assert(inner1.len() == 1 + enc_len(file.len()).len() + file.len());
    assert(inner2.len() == 1 + enc_len(bits.len()).len() + bits.len());
    lemma_enc_len_len(c.len());
    assert(enc == enc_tlv(TAG_SEQUENCE, c));
    assert(enc.len() == 1 + enc_len(c.len()).len() + c.len());
    lemma_header_of_tlv(b, i, TAG_SEQUENCE, c);
    let s = i + 1 + enc_len(c.len()).len();
    let e = i + enc.len();
    assert forall|q: int| 0 <= q < enc.len() implies b[i + q] == enc[q] by {
        assert(b.subrange(i, i + enc.len())[q] == b[i + q]);
    }
    assert forall|q: int| 0 <= q < c.len() implies b[s + q] == c[q] by {
        assert(b[i + ((s - i) + q)] == enc[(s - i) + q]);
        assert(enc[(s - i) + q] == c[q]);
    }
    assert forall|q: int| 0 <= q < inner1.len() implies b.subrange(s, s + inner1.len())[q]
        == inner1[q] by {
        assert(b.subrange(s, s + inner1.len())[q] == b[s + q]);
        assert(b[s + q] == c[q]);
        assert(c[q] == inner1[q]);
    }
    assert(b.subrange(s, s + inner1.len()) =~= inner1);
    lemma_header_of_tlv(b, s, TAG_IA5_STRING, file);
    let fs = s + 1 + enc_len(file.len()).len();
    let fe = s + inner1.len();
    assert forall|q: int| 0 <= q < file.len() implies b[fs + q] == file[q] by {
        assert(b[s + ((fs - s) + q)] == c[(fs - s) + q]);
        assert(c[(fs - s) + q] == inner1[(fs - s) + q]);
        assert(inner1[(fs - s) + q] == file[q]);
    }
    assert(b.subrange(fs, fe) =~= file);
    assert forall|q: int| 0 <= q < inner2.len() implies b[fe + q] == inner2[q] by {
        assert(b[s + ((fe - s) + q)] == c[(fe - s) + q]);
        assert(c[(fe - s) + q] == inner2[q]);
    }
    assert(b.subrange(fe, fe + inner2.len()) =~= inner2);
    lemma_header_of_tlv(b, fe, TAG_BIT_STRING, bits);
    let hs = fe + 1 + enc_len(bits.len()).len();
    let he = fe + inner2.len();
    assert forall|q: int| 0 <= q < bits.len() implies b[hs + q] == bits[q] by {
        assert(b[fe + ((hs - fe) + q)] == inner2[(hs - fe) + q]);
        assert(inner2[(hs - fe) + q] == bits[q]);
    }
    assert(b[hs] == bits[0]);
    assert forall|q: int| 0 <= q < hash.len() implies b[hs + 1 + q] == hash[q] by {
        assert(b[hs + (1 + q)] == bits[1 + q]);
        assert(bits[1 + q] == hash[q]);
    }
    assert(b.subrange(hs + 1, he) =~= hash);
    assert(he == e);
}

/// A file list decodes to exactly the entries it was encoded from, in their
/// declared order: decoding reverses encoding entry by entry, so declaring
/// the entries in another order yields them in that other order.
pub proof fn lemma_entries_roundtrip(b: Seq<u8>, i: int, e: int, ents: Seq<SpecEntry>)
    requires
        0 <= i <= e <= b.len(),
        bounded_entries(ents),
        e - i == enc_entries(ents).len(),
        b.subrange(i, e) == enc_entries(ents),
    ensures
        spec_entries(b, i, e) == Some(ents),
    decreases ents.len(),
{
    if ents.len() == 0 {
        assert(ents =~= Seq::<SpecEntry>::empty());
    } else {
        let head = enc_entry(ents[0].file, ents[0].hash);
        let tail = enc_entries(ents.drop_first());
        assert(enc_entries(ents) == head + tail);
        assert forall|q: int| 0 <= q < e - i implies b[i + q] == enc_entries(ents)[q] by {
            assert(b.subrange(i, e)[q] == b[i + q]);
        }
        assert forall|q: int| 0 <= q < head.len() implies b.subrange(i, i + head.len())[q]
            == head[q] by {
            assert(b[i + q] == enc_entries(ents)[q]);
            assert(enc_entries(ents)[q] == head[q]);
        }
        assert(b.subrange(i, i + head.len()) =~= head);
        lemma_entry_roundtrip(b, i, ents[0].file, ents[0].hash);
        let j = i + head.len();
        assert forall|q: int| 0 <= q < tail.len() implies b.subrange(j, e)[q] == tail[q] by {
            assert(b[i + ((j - i) + q)] == enc_entries(ents)[(j - i) + q]);
            assert(enc_entries(ents)[(j - i) + q] == tail[q]);
        }
        assert(b.subrange(j, e) =~= tail);
        lemma_entries_roundtrip(b, j, e, ents.drop_first());
        let se = spec_entry(b, i)->Some_0.0;
        assert(se =~= ents[0]);
        assert(seq![ents[0]] + ents.drop_first() =~= ents);
    }
}

/// The INTEGER encoding of a canonical magnitude: a sign octet is prepended
/// when the leading magnitude octet would read as a sign, and zero is the
/// single zero octet.
pub open spec fn enc_number(mag: Seq<u8>) -> Seq<u8> {
    enc_tlv(TAG_INTEGER, enc_number_body(mag))
}

/// The content octets of [`enc_number`].
pub open spec fn enc_number_body(mag: Seq<u8>) -> Seq<u8> {
    if mag.len() == 0 {
        seq![0u8]
    } else if mag[0] >= 0x80 {
        seq![0u8] + mag
    } else {
        mag
    }
}

/// Any canonical magnitude, however wide, decodes back from its INTEGER
/// encoding exactly: the manifest number loses nothing to word width.
pub proof fn lemma_number_roundtrip(b: Seq<u8>, i: int, mag: Seq<u8>)
    requires
        0 <= i,
        canonical_magnitude(mag),
        mag.len() < 0x100_0000,
        i + enc_number(mag).len() <= b.len(),
        b.subrange(i, i + enc_number(mag).len()) == enc_number(mag),
    ensures
        spec_number(b, i) == Some((mag, i + enc_number(mag).len())),
{
    let body = enc_number_body(mag);
    let enc = enc_number(mag);
    lemma_enc_len_len(body.len());
    lemma_header_of_tlv(b, i, TAG_INTEGER, body);
    let s = i + 1 + enc_len(body.len()).len();
    let e = i + enc.len();
    assert forall|q: int| 0 <= q < enc.len() implies b[i + q] == enc[q] by {
        assert(b.subrange(i, i + enc.len())[q] == b[i + q]);
    }
    assert forall|q: int| 0 <= q < body.len() implies b[s + q] == body[q] by {
        assert(b[i + ((s - i) + q)] == enc[(s - i) + q]);
        assert(enc[(s - i) + q] == body[q]);
    }
    if mag.len() == 0 {
        assert(b[s + 0] == body[0]);
        assert(body[0] == 0);
        assert(b.subrange(s + 1, e) =~= mag);
    } else if mag[0] >= 0x80 {
        assert(b[s + 0] == body[0]);
        assert(body[0] == 0);
        assert(b[s + 1] == body[1]);
        assert(body[1] == mag[0]);
        assert forall|q: int| 0 <= q < mag.len() implies b.subrange(s + 1, e)[q] == mag[q] by {
            assert(b[s + (1 + q)] == body[1 + q]);
            assert(body[1 + q] == mag[q]);
        }
        assert(b.subrange(s + 1, e) =~= mag);
    } else {
        assert(b[s + 0] == body[0]);
        assert(body[0] == mag[0]);
        assert forall|q: int| 0 <= q < mag.len() implies b.subrange(s, e)[q] == mag[q] by {
            assert(b[s + q] == body[q]);
        }
        assert(b.subrange(s, e) =~= mag);
    }
}

/// Declaring the same entries in the reverse order yields exactly the
/// reversed file list.
pub proof fn lemma_reversed_entries_decode_reversed(
    b: Seq<u8>,
    i: int,
    e: int,
    ents: Seq<SpecEntry>,
)
    requires
        0 <= i <= e <= b.len(),
        bounded_entries(ents),
        e - i == enc_entries(ents.reverse()).len(),
        b.subrange(i, e) == enc_entries(ents.reverse()),
    ensures
        spec_entries(b, i, e) == Some(ents.reverse()),
{
    assert forall|k: int| 0 <= k < ents.reverse().len() implies (#[trigger] ents.reverse()[
        k
    ]).file.len() < 0x100_0000 && ents.reverse()[k].hash.len() < 0x100_0000 by {
        assert(ents.reverse()[k] == ents[ents.len() - 1 - k]);
    }
    lemma_entries_roundtrip(b, i, e, ents.reverse());
}

/// One entry of a decoded manifest: a filename and the digest the manifest
/// declares for that file.
#[derive(Debug, Hash)]
pub struct FileAndHash {
    /// The file name; empty when the declared bytes were not valid text.
    pub file: String,
    /// The file hash, verbatim.
    pub hash: Vec<u8>,
}

impl FileAndHash {
    /// Whether this entry renders the raw entry `se`: the hash verbatim, the
    /// name decoded with the empty-name degradation.
    pub open spec fn renders(self, se: SpecEntry) -> bool {
        &&& self.file@ == entry_name(se.file)
        &&& self.hash@ == se.hash
    }
}

impl Clone for FileAndHash {
    /// A copy with the same name and hash.
    fn clone(&self) -> (r: Self)
        ensures
            r.file@ == self.file@,
            r.hash@ == self.hash@,
    {
        FileAndHash { file: self.file.clone(), hash: copy_bytes(&self.hash) }
    }
}

impl PartialEq for FileAndHash {
    fn eq(&self, other: &FileAndHash) -> (r: bool) {
        self.file == other.file && crate::number::bytes_eq(
            self.hash.as_slice(),
            other.hash.as_slice(),
        )
    }
}

impl vstd::std_specs::cmp::PartialEqSpecImpl for FileAndHash {
    open spec fn obeys_eq_spec() -> bool {
        true
    }

    open spec fn eq_spec(&self, other: &FileAndHash) -> bool {
        self.file@ == other.file@ && self.hash@ == other.hash@
    }
}

impl Eq for FileAndHash {

}

/// Copies a byte vector.
fn copy_bytes(v: &Vec<u8>) -> (r: Vec<u8>)
    ensures
        r@ == v@,
{
    vstd::slice::slice_to_vec(v.as_slice())
}

/// The decoded payload of a manifest: sequence number, validity window in
/// Unix seconds, and the file list in declared order.
pub struct ManifestFields {
    pub manifest_number: ManifestNumber,
    pub this_update: i64,
    pub next_update: i64,
    pub file_list: Vec<FileAndHash>,
}

impl ManifestFields {
    /// The manifest number's magnitude is canonical.
    pub open spec fn wf(self) -> bool {
        self.manifest_number.wf()
    }

    /// Whether this value renders the decoded fields `sf`.
    pub open spec fn renders(self, sf: SpecFields) -> bool {
        &&& self.manifest_number.magnitude@ == sf.number
        &&& self.this_update == sf.this_update
        &&& self.next_update == sf.next_update
        &&& self.file_list@.len() == sf.entries.len()
        &&& (forall|k: int|
            0 <= k < sf.entries.len() ==> (#[trigger] self.file_list@[k]).renders(sf.entries[k]))
    }
}

/// The one failure a structural decode reports: the bytes are not a
/// well-formed manifest payload.
#[derive(Clone, Copy, PartialEq, Eq, Structural, Debug)]
pub enum DecodeError {
    Malformed,
}

/// Consumes the optional version field, as [`spec_version`] describes.
fn take_version(b: &[u8], i: usize) -> (r: Option<usize>)
    requires
        i <= b@.len(),
    ensures
        (r is Some <==> spec_version(b@, i as int) is Some),
        r matches Some(j) ==> spec_version(b@, i as int) == Some(j as int) && i <= j <= b@.len(),
{
    if i < b.len() && b[i] == TAG_CTX_0 {
        match read_header(b, i) {
            None => None,
            Some(t) => match read_header(b, t.start) {
                None => None,
                Some(t2) => {
                    if t2.tag == TAG_INTEGER && t2.end == t.end && t2.end - t2.start == 1
                        && b[t2.start] == 0 {
                        Some(t.end)
                    } else {
                        None
                    }
                },
            },
        }
    } else {
        Some(i)
    }
}

/// Reads the manifest number, as [`spec_number`] describes.
fn take_number(b: &[u8], i: usize) -> (r: Option<(ManifestNumber, usize)>)
    ensures
        (r is Some <==> spec_number(b@, i as int) is Some),
        r matches Some((num, j)) ==> spec_number(b@, i as int) == Some((num.magnitude@, j as int))
            && num.wf() && i < j <= b@.len(),
{
    let t = match read_header(b, i) {
        None => { return None },
        Some(t) => t,
    };
    if t.tag != TAG_INTEGER || t.end - t.start < 1 {
        return None;
    }
    if b[t.start] >= 0x80 {
        return None;
    }
    if t.end - t.start > 1 && b[t.start] == 0 && b[t.start + 1] < 0x80 {
        return None;
    }
    let from = if b[t.start] == 0 {
        t.start + 1
    } else {
        t.start
    };
    let mag = vstd::slice::slice_to_vec(vstd::slice::slice_subrange(b, from, t.end));
    proof {
        if b@[t.start as int] != 0 {
            assert(mag@[0] == b@[t.start as int]);
        } else if mag@.len() > 0 {
            assert(mag@[0] == b@[t.start + 1]);
        }
    }
    let num = ManifestNumber::from_magnitude(mag);
    Some((num, t.end))
}

/// Reads a GeneralizedTime field, as [`spec_time`] describes.
#[verifier::loop_isolation(false)]
fn take_time(b: &[u8], i: usize) -> (r: Option<(i64, usize)>)
    ensures
        (r is Some <==> spec_time(b@, i as int) is Some),
        r matches Some((t, j)) ==> spec_time(b@, i as int) == Some((t as int, j as int)) && i < j
            <= b@.len(),
{
    let t = match read_header(b, i) {
        None => { return None },
        Some(t) => t,
    };
    if t.tag != TAG_GENERALIZED_TIME || t.end - t.start != 15 {
        return None;
    }
    let s = t.start;
    let ghost c = b@.subrange(s as int, t.end as int);
    let mut k: usize = 0;
    while k < 14
        invariant
            s + 15 <= b@.len(),
            c == b@.subrange(s as int, s + 15),
            0 <= k <= 14,
            forall|q: int| 0 <= q < k ==> is_digit(#[trigger] c[q]),
        decreases 14 - k,
    {
        proof {
            assert(c[k as int] == b@[s + k]);
        }
        let d = b[s + k];
        if d < 0x30 || d > 0x39 {
            proof {
                assert(!is_digit(c[k as int]));
            }
            return None;
        }
        k += 1;
    }
    proof {
        assert(c[14] == b@[s + 14]);
    }
    if b[s + 14] != 0x5A {
        return None;
    }
    proof {
        assert forall|q: int| 0 <= q < 15 implies c[q] == b@[s + q] by {}
    }
    let y: u16 = (b[s] - 0x30) as u16 * 1000 + (b[s + 1] - 0x30) as u16 * 100 + (b[s + 2]
        - 0x30) as u16 * 10 + (b[s + 3] - 0x30) as u16;
    let m: u8 = (b[s + 4] - 0x30) * 10 + (b[s + 5] - 0x30);
    let d: u8 = (b[s + 6] - 0x30) * 10 + (b[s + 7] - 0x30);
    let h: u8 = (b[s + 8] - 0x30) * 10 + (b[s + 9] - 0x30);
    let mi: u8 = (b[s + 10] - 0x30) * 10 + (b[s + 11] - 0x30);
    let sec: u8 = (b[s + 12] - 0x30) * 10 + (b[s + 13] - 0x30);
    if m < 1 || m > 12 {
        return None;
    }
    if d < 1 || d > days_in_month_exec(y, m) {
        return None;
    }
    if h >= 24 || mi >= 60 || sec >= 60 {
        return None;
    }
    let unix = civil_to_unix_exec(y, m, d, h, mi, sec);
    Some((unix, t.end))
}

/// Consumes the algorithm identifier, as [`spec_alg`] describes.
fn take_alg(b: &[u8], i: usize) -> (r: Option<usize>)
    ensures
        (r is Some <==> spec_alg(b@, i as int) is Some),
        r matches Some(j) ==> spec_alg(b@, i as int) == Some(j as int) && i < j <= b@.len(),
{
    let t = match read_header(b, i) {
        None => { return None },
        Some(t) => t,
    };
    if t.tag != TAG_OID {
        return None;
    }
    if t.end - t.start != 9 {
        proof {
            assert(b@.subrange(t.start as int, t.end as int).len() != sha256_oid().len());
        }
        return None;
    }
    let s2 = t.start;
    if !(b[s2] == 0x60 && b[s2 + 1] == 0x86 && b[s2 + 2] == 0x48 && b[s2 + 3] == 0x01 && b[s2 + 4]
        == 0x65 && b[s2 + 5] == 0x03 && b[s2 + 6] == 0x04 && b[s2 + 7] == 0x02 && b[s2 + 8]
        == 0x01) {
        proof {
            assert(b@.subrange(s2 as int, t.end as int) != sha256_oid());
        }
        return None;
    }
    proof {
        assert(b@.subrange(s2 as int, t.end as int) =~= sha256_oid());
    }
    Some(t.end)
}

/// Reads one file-list entry, as [`spec_entry`] describes.
fn take_entry(b: &[u8], i: usize) -> (r: Option<(FileAndHash, usize)>)
    ensures
        (r is Some <==> spec_entry(b@, i as int) is Some),
        r matches Some((fh, j)) ==> spec_entry(b@, i as int) matches Some((se, je)) && je
            == j as int && fh.renders(se) && i < j <= b@.len(),
{
    let t = match read_header(b, i) {
        None => { return None },
        Some(t) => t,
    };
    if t.tag != TAG_SEQUENCE {
        return None;
    }
    let ft = match read_header(b, t.start) {
        None => { return None },
        Some(ft) => ft,
    };
    if ft.tag != TAG_IA5_STRING || ft.end > t.end {
        return None;
    }
    let ht = match read_header(b, ft.end) {
        None => { return None },
        Some(ht) => ht,
    };
    if ht.tag != TAG_BIT_STRING || ht.end != t.end || ht.end - ht.start < 1 || b[ht.start] != 0 {
        return None;
    }
    let file = decode_entry_name(vstd::slice::slice_subrange(b, ft.start, ft.end));
    let hash = vstd::slice::slice_to_vec(vstd::slice::slice_subrange(b, ht.start + 1, ht.end));
    Some((FileAndHash { file, hash }, t.end))
}

/// Reads the file list between `i` and `e`, as [`spec_entries`] describes.
#[verifier::loop_isolation(false)]
fn take_entries(b: &[u8], i: usize, e: usize) -> (r: Option<Vec<FileAndHash>>)
    requires
        i <= e <= b@.len(),
    ensures
        (r is Some <==> spec_entries(b@, i as int, e as int) is Some),
        r matches Some(v) ==> spec_entries(b@, i as int, e as int) matches Some(ents)
            && v@.len() == ents.len() && (forall|k: int|
            0 <= k < ents.len() ==> (#[trigger] v@[k]).renders(ents[k])),
{
    let mut out: Vec<FileAndHash> = Vec::new();
    let mut pos: usize = i;
    let ghost i0 = i as int;
    let ghost mut done: Seq<SpecEntry> = Seq::empty();
    proof {
        if spec_entries(b@, i0, e as int) is Some {
            let whole = spec_entries(b@, i0, e as int)->Some_0;
            assert(Seq::<SpecEntry>::empty() + whole =~= whole);
        }
    }
    while pos < e
        invariant
            i0 <= pos <= e <= b@.len(),
            (spec_entries(b@, i0, e as int) is Some <==> spec_entries(b@, pos as int, e as int)
                is Some),
            spec_entries(b@, pos as int, e as int) matches Some(rest) ==> spec_entries(
                b@,
                i0,
                e as int,
            ) == Some(done + rest),
            out@.len() == done.len(),
            forall|k: int| 0 <= k < done.len() ==> (#[trigger] out@[k]).renders(done[k]),
        decreases e - pos,
    {
        match take_entry(b, pos) {
            None => {
                proof {
                    assert(spec_entries(b@, pos as int, e as int) is None);
                }
                return None;
            },
            Some((fh, j)) => {
                let ghost se = spec_entry(b@, pos as int)->Some_0.0;
                if j > e {
                    proof {
                        assert(spec_entries(b@, pos as int, e as int) is None);
                    }
                    return None;
                }
                proof {
                    assert(spec_entries(b@, pos as int, e as int) == (match spec_entries(
                        b@,
                        j as int,
                        e as int,
                    ) {
                        None => None::<Seq<SpecEntry>>,
                        Some(rest) => Some(seq![se] + rest),
                    }));
                    if spec_entries(b@, j as int, e as int) is Some {
                        let rest = spec_entries(b@, j as int, e as int)->Some_0;
                        assert((done + (seq![se] + rest)) =~= ((done + seq![se]) + rest));
                    }
                    done = done + seq![se];
                }
                out.push(fh);
                pos = j;
            },
        }
    }
    proof {
        assert(spec_entries(b@, e as int, e as int) == Some(Seq::<SpecEntry>::empty()));
        assert(done + Seq::<SpecEntry>::empty() =~= done);
    }
    Some(out)
}

/// Decodes the manifest payload `bytes`.
///
/// Succeeds exactly when [`spec_manifest`] admits the buffer, and then
/// returns precisely the fields it describes: the same magnitude, the same
/// validity window, and the file list in declared order with each filename
/// decoded under the empty-name degradation.
pub fn decode_manifest_content(bytes: &[u8]) -> (r: Result<ManifestFields, DecodeError>)
    ensures
        (r is Ok <==> spec_manifest(bytes@) is Some),
        r matches Ok(f) ==> f.wf() && f.renders(spec_manifest(bytes@)->Some_0),
{
    let t = match read_header(bytes, 0) {
        None => { return Err(DecodeError::Malformed) },
        Some(t) => t,
    };
    if t.tag != TAG_SEQUENCE || t.end != bytes.len() {
        return Err(DecodeError::Malformed);
    }
    let i1 = match take_version(bytes, t.start) {
        None => { return Err(DecodeError::Malformed) },
        Some(i1) => i1,
    };
    let (num, i2) = match take_number(bytes, i1) {
        None => { return Err(DecodeError::Malformed) },
        Some(p) => p,
    };
    let (t1, i3) = match take_time(bytes, i2) {
        None => { return Err(DecodeError::Malformed) },
        Some(p) => p,
    };
    let (t2, i4) = match take_time(bytes, i3) {
        None => { return Err(DecodeError::Malformed) },
        Some(p) => p,
    };
    let i5 = match take_alg(bytes, i4) {
        None => { return Err(DecodeError::Malformed) },
        Some(i5) => i5,
    };
    let lt = match read_header(bytes, i5) {
        None => { return Err(DecodeError::Malformed) },
        Some(lt) => lt,
    };
    if lt.tag != TAG_SEQUENCE || lt.end != t.end {
        return Err(DecodeError::Malformed);
    }
    let file_list = match take_entries(bytes, lt.start, lt.end) {
        None => { return Err(DecodeError::Malformed) },
        Some(v) => v,
    };
    Ok(ManifestFields { manifest_number: num, this_update: t1, next_update: t2, file_list })
}

} // verus!
