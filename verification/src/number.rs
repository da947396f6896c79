//! Arbitrary-precision, non-negative manifest sequence numbers.
//!
//! A manifest number is carried on the wire as the big-endian magnitude of a
//! DER INTEGER. It may be far wider than any machine integer, so the decoded
//! value keeps the magnitude bytes and its mathematical meaning is the
//! big-endian value of those bytes, available in specifications as [`be_nat`].

use vstd::prelude::*;

verus! {

/// The big-endian value of a byte string: the empty string denotes zero and
/// appending a byte multiplies the value by 256 and adds that byte.
pub open spec fn be_nat(bytes: Seq<u8>) -> nat
    decreases bytes.len(),
{
    if bytes.len() == 0 {
        0
    } else {
        (be_nat(bytes.drop_last()) * 256 + bytes.last()) as nat
    }
}

/// A magnitude is canonical when it carries no redundant leading zero byte;
/// zero itself is the empty magnitude.
pub open spec fn canonical_magnitude(bytes: Seq<u8>) -> bool {
    bytes.len() > 0 ==> bytes[0] != 0
}

/// A non-negative integer of unbounded width, stored as the canonical
/// big-endian magnitude of its value.
#[derive(Debug, Hash)]
pub struct ManifestNumber {
    /// The canonical big-endian magnitude of the value.
    pub magnitude: Vec<u8>,
}

impl ManifestNumber {
    /// The mathematical value this number denotes.
    pub open spec fn value(self) -> nat {
        be_nat(self.magnitude@)
    }

    /// The stored magnitude is canonical.
    pub open spec fn wf(self) -> bool {
        canonical_magnitude(self.magnitude@)
    }

    /// Wraps magnitude bytes that carry no leading zero.
    pub fn from_magnitude(magnitude: Vec<u8>) -> (r: ManifestNumber)
        requires
            canonical_magnitude(magnitude@),
        ensures
            r.wf(),
            r.value() == be_nat(magnitude@),
            r.magnitude@ == magnitude@,
    {
        ManifestNumber { magnitude }
    }

    /// Two well-formed numbers are equal exactly when their magnitudes are.
    pub fn same_value(&self, other: &ManifestNumber) -> (r: bool)
        requires
            self.wf(),
            other.wf(),
        ensures
            r == (self.value() == other.value()),
    {
        proof {
            lemma_be_nat_injective(self.magnitude@, other.magnitude@);
        }
        bytes_eq(self.magnitude.as_slice(), other.magnitude.as_slice())
    }
}

/// Compares two byte strings for equality.
pub fn bytes_eq(a: &[u8], b: &[u8]) -> (r: bool)
    ensures
        r == (a@ == b@),
{
    if a.len() != b.len() {
        proof {
            assert(a@.len() != b@.len());
        }
        return false;
    }
    let n = a.len();
    let mut i: usize = 0;
    while i < n
        invariant
            n == a@.len(),
            n == b@.len(),
            0 <= i <= n,
            forall|k: int| 0 <= k < i ==> a@[k] == b@[k],
        decreases n - i,
    {
        if a[i] != b[i] {
            return false;
        }
        i += 1;
    }
    proof {
        assert(a@ =~= b@);
    }
    true
}

/// A longer canonical magnitude denotes a strictly larger value, and `be_nat`
/// is bounded by the width of its argument.
pub proof fn lemma_be_nat_bound(bytes: Seq<u8>)
    ensures
        be_nat(bytes) < pow256(bytes.len()),
        bytes.len() > 0 && bytes[0] != 0 ==> be_nat(bytes) >= pow256((bytes.len() - 1) as nat),
    decreases bytes.len(),
{
    if bytes.len() == 0 {
    } else {
        lemma_be_nat_bound(bytes.drop_last());
        if bytes.len() > 1 && bytes[0] != 0 {
            assert(bytes.drop_last()[0] == bytes[0]);
            assert(be_nat(bytes.drop_last()) >= pow256((bytes.len() - 2) as nat));
        }
    }
}

/// 256 raised to the given power.
pub open spec fn pow256(n: nat) -> nat
    decreases n,
{
    if n == 0 {
        1
    } else {
        256 * pow256((n - 1) as nat)
    }
}

/// On canonical magnitudes, `be_nat` is injective: equal values have equal
/// bytes.
pub proof fn lemma_be_nat_injective(a: Seq<u8>, b: Seq<u8>)
    requires
        canonical_magnitude(a),
        canonical_magnitude(b),
    ensures
        (be_nat(a) == be_nat(b)) == (a == b),
    decreases a.len() + b.len(),
{
    if a == b {
    } else if a.len() == 0 {
        if b.len() == 0 {
            assert(a =~= b);
        } else {
            lemma_be_nat_bound(b);
            assert(be_nat(b) >= pow256((b.len() - 1) as nat));
            lemma_pow256_positive((b.len() - 1) as nat);
        }
    } else if b.len() == 0 {
        lemma_be_nat_bound(a);
        lemma_pow256_positive((a.len() - 1) as nat);
    } else if a.len() < b.len() {
        lemma_be_nat_bound(a);
        lemma_be_nat_bound(b);
        lemma_pow256_monotone(a.len(), (b.len() - 1) as nat);
    } else if b.len() < a.len() {
        lemma_be_nat_bound(a);
        lemma_be_nat_bound(b);
        lemma_pow256_monotone(b.len(), (a.len() - 1) as nat);
    } else {
        if be_nat(a) == be_nat(b) {
            assert(be_nat(a.drop_last()) * 256 + a.last() == be_nat(b.drop_last()) * 256
                + b.last());
            assert(be_nat(a.drop_last()) == be_nat(b.drop_last())) by {
                lemma_quot_rem_unique(
                    be_nat(a.drop_last()),
                    a.last() as nat,
                    be_nat(b.drop_last()),
                    b.last() as nat,
                );
            }
            if a.len() > 1 {
                lemma_drop_last_canonical(a);
                lemma_drop_last_canonical(b);
                lemma_be_nat_injective(a.drop_last(), b.drop_last());
            }
            assert forall|k: int| 0 <= k < a.len() implies a[k] == b[k] by {
                if k < a.len() - 1 {
                    assert(a[k] == a.drop_last()[k]);
                    assert(b[k] == b.drop_last()[k]);
                } else {
                    assert(a[k] == a.last());
                    assert(b[k] == b.last());
                }
            }
            assert(a =~= b);
        }
    }
}

proof fn lemma_drop_last_canonical(a: Seq<u8>)
    requires
        canonical_magnitude(a),
        a.len() > 1,
    ensures
        canonical_magnitude(a.drop_last()),
{
    assert(a.drop_last()[0] == a[0]);
}

proof fn lemma_quot_rem_unique(q1: nat, r1: nat, q2: nat, r2: nat)
    requires
        r1 < 256,
        r2 < 256,
        q1 * 256 + r1 == q2 * 256 + r2,
    ensures
        q1 == q2,
        r1 == r2,
{
    assert(q1 == q2 && r1 == r2) by (nonlinear_arith)
        requires
            r1 < 256,
            r2 < 256,
            q1 * 256 + r1 == q2 * 256 + r2,
    ;
}

proof fn lemma_pow256_positive(n: nat)
    ensures
        pow256(n) >= 1,
    decreases n,
{
    if n > 0 {
        lemma_pow256_positive((n - 1) as nat);
    }
}

/// `pow256` grows with its exponent.
proof fn lemma_pow256_monotone(a: nat, b: nat)
    requires
        a <= b,
    ensures
        pow256(a) <= pow256(b),
    decreases b,
{
    if a < b {
        lemma_pow256_monotone(a, (b - 1) as nat);
        lemma_pow256_positive((b - 1) as nat);
    }
}

} // verus!
