//! Defensive reading of DER tag-length headers.
//!
//! Every field of the manifest payload is a DER TLV: a one-byte tag, a
//! definite length in short or minimal long form, and that many content
//! bytes. A header is well-formed only when its contents lie entirely inside
//! the buffer; indefinite and non-minimal lengths are rejected.

use vstd::prelude::*;

use crate::number::be_nat;

verus! {

/// The result of reading one DER header: the tag, where the contents start,
/// and where they end.
pub struct Tlv {
    pub tag: u8,
    pub start: usize,
    pub end: usize,
}

/// What reading a DER header at position `i` of `b` yields: tag, contents
/// start and contents end, or nothing when the header is absent, indefinite,
/// non-minimal, longer than four length bytes, or runs past the buffer.
pub open spec fn spec_header(b: Seq<u8>, i: int) -> Option<(u8, int, int)> {
    if i < 0 || i + 2 > b.len() {
        None
    } else {
        let tag = b[i];
        let l0 = b[i + 1];
        if l0 < 0x80 {
            if i + 2 + l0 <= b.len() {
                Some((tag, i + 2, i + 2 + l0))
            } else {
                None
            }
        } else {
            let n = l0 - 0x80;
            if n < 1 || n > 4 || i + 2 + n > b.len() {
                None
            } else {
                let len = be_nat(b.subrange(i + 2, i + 2 + n)) as int;
                if b[i + 2] == 0 || len < 0x80 || i + 2 + n + len > b.len() {
                    None
                } else {
                    Some((tag, i + 2 + n, i + 2 + n + len))
                }
            }
        }
    }
}

/// A well-formed header starts past its own bytes and ends within the buffer.
pub proof fn lemma_header_in_bounds(b: Seq<u8>, i: int)
    requires
        spec_header(b, i) is Some,
    ensures
        ({
            let (tag, s, e) = spec_header(b, i)->Some_0;
            i + 2 <= s <= e <= b.len()
        }),
{
    if 0 <= i && i + 2 <= b.len() && b[i + 1] >= 0x80 {
        let n = b[i + 1] - 0x80;
        if 1 <= n <= 4 && i + 2 + n <= b.len() {
            assert(be_nat(b.subrange(i + 2, i + 2 + n)) >= 0);
        }
    }
}

/// A buffer cut anywhere before a header's contents end no longer carries a
/// well-formed header at that position: the declared length, when still
/// readable, is read from the same bytes and now overruns the cut.
pub proof fn lemma_header_truncated(b: Seq<u8>, p: Seq<u8>, i: int)
    requires
        spec_header(b, i) is Some,
        p.len() < spec_header(b, i)->Some_0.2,
        p.len() <= b.len(),
        forall|k: int| 0 <= k < p.len() ==> p[k] == b[k],
    ensures
        spec_header(p, i) is None,
{
    let (tag, s, e) = spec_header(b, i)->Some_0;
    lemma_header_in_bounds(b, i);
    if i + 2 <= p.len() {
        assert(p[i] == b[i]);
        assert(p[i + 1] == b[i + 1]);
        if b[i + 1] >= 0x80 {
            let n = b[i + 1] - 0x80;
            if i + 2 + n <= p.len() {
                assert(p.subrange(i + 2, i + 2 + n) =~= b.subrange(i + 2, i + 2 + n));
            }
        }
    }
}

/// The big-endian value of up to four bytes of `b`.
fn be_value(b: &[u8], from: usize, to: usize) -> (r: u64)
    requires
        0 <= from <= to <= b@.len(),
        to - from <= 4,
    ensures
        r == be_nat(b@.subrange(from as int, to as int)),
        r < 0x1_0000_0000u64,
{
    let mut acc: u64 = 0;
    let mut i: usize = from;
    proof {
        assert(b@.subrange(from as int, from as int) =~= Seq::<u8>::empty());
        assert(be_nat(b@.subrange(from as int, from as int)) == 0);
    }
    while i < to
        invariant
            from <= i <= to <= b@.len(),
            to - from <= 4,
            acc == be_nat(b@.subrange(from as int, i as int)),
            acc < pow256_limit((i - from) as nat),
        decreases to - i,
    {
        proof {
            assert(b@.subrange(from as int, i + 1).drop_last() =~= b@.subrange(
                from as int,
                i as int,
            ));
            assert(b@.subrange(from as int, i + 1).last() == b@[i as int]);
        }
        acc = acc * 256 + b[i] as u64;
        i += 1;
    }
    acc
}

/// 256 to the power of `n`, for the small exponents a length field can have.
pub open spec fn pow256_limit(n: nat) -> int {
    if n == 0 {
        1
    } else if n == 1 {
        0x100
    } else if n == 2 {
        0x1_0000
    } else if n == 3 {
        0x100_0000
    } else {
        0x1_0000_0000
    }
}

/// Reads the DER header at position `i`, exactly as [`spec_header`] describes.
pub fn read_header(b: &[u8], i: usize) -> (r: Option<Tlv>)
    ensures
        (r is Some <==> spec_header(b@, i as int) is Some),
        r matches Some(t) ==> spec_header(b@, i as int) == Some(
            (t.tag, t.start as int, t.end as int),
        ) && i + 2 <= t.start <= t.end <= b@.len(),
{
    if i >= b.len() || b.len() - i < 2 {
        return None;
    }
    let tag = b[i];
    let l0 = b[i + 1];
    if l0 < 0x80 {
        let len = l0 as usize;
        if len <= b.len() - (i + 2) {
            Some(Tlv { tag, start: i + 2, end: i + 2 + len })
        } else {
            None
        }
    } else {
        let n = (l0 - 0x80) as usize;
        if n < 1 || n > 4 || n > b.len() - (i + 2) {
            return None;
        }
        let len64 = be_value(b, i + 2, i + 2 + n);
        if b[i + 2] == 0 || len64 < 0x80 {
            return None;
        }
        let len = len64 as usize;
        if len > b.len() - (i + 2 + n) {
            return None;
        }
        Some(Tlv { tag, start: i + 2 + n, end: i + 2 + n + len })
    }
}

} // verus!
