//! Canonical numeric encoding: byte-string atoms as signed integers.
//!
//! Atoms are read as big-endian two's complement with sign extension from
//! the leading byte's high bit. Every atom denotes a unique integer, and
//! every integer has a unique minimal encoding; the empty atom is zero.

use vstd::prelude::*;
use vstd::slice::{slice_subrange, slice_to_vec};

verus! {

/// 256 to the given power: the weight of one leading byte.
pub open spec fn pow256(n: nat) -> nat
    decreases n,
{
    if n == 0 {
        1
    } else {
        256 * pow256((n - 1) as nat)
    }
}

/// A byte string read as a big-endian unsigned integer.
pub open spec fn be_unsigned(s: Seq<u8>) -> nat
    decreases s.len(),
{
    if s.len() == 0 {
        0
    } else {
        be_unsigned(s.drop_last()) * 256 + s.last() as nat
    }
}

/// The signed integer a byte string denotes: two's complement, sign
/// extended from the leading byte's high bit; the empty string is zero.
pub open spec fn decoded_int(s: Seq<u8>) -> int {
    if s.len() == 0 {
        0
    } else if s[0] >= 128 {
        be_unsigned(s) - pow256(s.len())
    } else {
        be_unsigned(s) as int
    }
}

/// No redundant leading `0x00` unless required to keep the sign bit
/// clear, and no redundant leading `0xff` unless required to keep it set.
pub open spec fn minimal(s: Seq<u8>) -> bool {
    &&& (s.len() >= 1 && s[0] == 0 ==> s.len() >= 2 && s[1] >= 128)
    &&& (s.len() >= 2 && s[0] == 255 ==> s[1] < 128)
}

/// The minimal encoding with the same value: the given bytes with every
/// redundant leading byte stripped.
pub open spec fn canonical(s: Seq<u8>) -> Seq<u8>
    decreases s.len(),
{
    if s.len() >= 1 && s[0] == 0 && (s.len() == 1 || s[1] < 128) {
        canonical(s.skip(1))
    } else if s.len() >= 2 && s[0] == 255 && s[1] >= 128 {
        canonical(s.skip(1))
    } else {
        s
    }
}

/// Splitting off the leading byte: its weight is one power of 256 per
/// remaining byte.
pub proof fn lemma_be_unsigned_head(s: Seq<u8>)
    requires
        s.len() >= 1,
    ensures
        be_unsigned(s) == s[0] * pow256((s.len() - 1) as nat) + be_unsigned(s.skip(1)),
    decreases s.len(),
{
    if s.len() == 1 {
        assert(s.drop_last() =~= Seq::<u8>::empty());
        assert(s.skip(1) =~= Seq::<u8>::empty());
        assert(s.last() == s[0]);
        assert(be_unsigned(Seq::<u8>::empty()) == 0);
        assert(pow256(0) == 1);
        assert(be_unsigned(s) == s[0] as nat);
    } else {
        let d = s.drop_last();
        let t = s.skip(1);
        let n = (s.len() - 2) as nat;
        lemma_be_unsigned_head(d);
        assert(d.skip(1) =~= t.drop_last());
        assert(t.last() == s.last());
        assert(d[0] == s[0]);
        assert(be_unsigned(s) == be_unsigned(d) * 256 + s.last() as nat);
        assert(be_unsigned(t) == be_unsigned(t.drop_last()) * 256 + t.last() as nat);
        assert(be_unsigned(d) == s[0] * pow256(n) + be_unsigned(t.drop_last()));
        assert(pow256((s.len() - 1) as nat) == 256 * pow256(n));
        assert((s[0] * pow256(n) + be_unsigned(t.drop_last())) * 256 == s[0] * (256 * pow256(n))
            + be_unsigned(t.drop_last()) * 256) by (nonlinear_arith);
        assert(be_unsigned(s) == s[0] * (256 * pow256(n)) + be_unsigned(t));
        assert(be_unsigned(s) == s[0] * pow256((s.len() - 1) as nat) + be_unsigned(s.skip(1)));
    }
}

/// An unsigned reading is bounded by the weight of one more byte.
pub proof fn lemma_be_unsigned_bound(s: Seq<u8>)
    ensures
        be_unsigned(s) < pow256(s.len()),
    decreases s.len(),
{
    if s.len() > 0 {
        let d = s.drop_last();
        lemma_be_unsigned_bound(d);
        assert(be_unsigned(d) <= pow256((s.len() - 1) as nat) - 1);
        assert(be_unsigned(d) * 256 <= (pow256((s.len() - 1) as nat) - 1) * 256) by (nonlinear_arith)
            requires
                be_unsigned(d) <= pow256((s.len() - 1) as nat) - 1,
        ;
    }
}

/// Stripping never changes the denoted integer.
pub proof fn lemma_canonical_value(s: Seq<u8>)
    ensures
        decoded_int(canonical(s)) == decoded_int(s),
    decreases s.len(),
{
    if s.len() >= 1 && s[0] == 0 && (s.len() == 1 || s[1] < 128) {
        let t = s.skip(1);
        lemma_be_unsigned_head(s);
        lemma_canonical_value(t);
        assert(be_unsigned(s) == be_unsigned(t));
        if t.len() > 0 {
            assert(t[0] == s[1]);
        }
    } else if s.len() >= 2 && s[0] == 255 && s[1] >= 128 {
        let t = s.skip(1);
        lemma_be_unsigned_head(s);
        lemma_canonical_value(t);
        assert(t[0] == s[1] && t[0] >= 128);
        assert(pow256(s.len()) == 256 * pow256(t.len()));
        assert(be_unsigned(s) == 255 * pow256(t.len()) + be_unsigned(t));
        assert(decoded_int(s) == be_unsigned(t) - pow256(t.len()));
        assert(decoded_int(t) == be_unsigned(t) - pow256(t.len()));
    }
}

/// The stripped bytes are minimal.
pub proof fn lemma_canonical_minimal(s: Seq<u8>)
    ensures
        minimal(canonical(s)),
    decreases s.len(),
{
    if s.len() >= 1 && s[0] == 0 && (s.len() == 1 || s[1] < 128) {
        lemma_canonical_minimal(s.skip(1));
    } else if s.len() >= 2 && s[0] == 255 && s[1] >= 128 {
        lemma_canonical_minimal(s.skip(1));
    }
}

/// Canonical round-trip: an already minimal atom decodes and re-encodes
/// to exactly the same bytes.
pub proof fn lemma_minimal_round_trip(s: Seq<u8>)
    requires
        minimal(s),
    ensures
        canonical(s) == s,
{
}

/// One leading byte's weight is at least one.
pub proof fn lemma_pow256_pos(n: nat)
    ensures
        pow256(n) >= 1,
    decreases n,
{
    if n > 0 {
        lemma_pow256_pos((n - 1) as nat);
    }
}

/// Weights never shrink with the byte count.
pub proof fn lemma_pow256_increases(a: nat, b: nat)
    requires
        a <= b,
    ensures
        pow256(a) <= pow256(b),
    decreases b,
{
    if a < b {
        lemma_pow256_increases(a, (b - 1) as nat);
        lemma_pow256_pos((b - 1) as nat);
    }
}

/// Where a minimal encoding's value lies, by its sign and length: each
/// length owns one band of values, and bands of different lengths do not
/// overlap.
proof fn lemma_minimal_value_band(s: Seq<u8>)
    requires
        minimal(s),
        s.len() >= 1,
    ensures
        s[0] < 128 ==> decoded_int(s) >= 1,
        s[0] < 128 && s.len() >= 2 ==> decoded_int(s) >= 128 * pow256((s.len() - 2) as nat),
        s[0] < 128 ==> decoded_int(s) < 128 * pow256((s.len() - 1) as nat),
        s[0] >= 128 ==> decoded_int(s) <= -1,
        s[0] >= 128 ==> decoded_int(s) >= -128 * pow256((s.len() - 1) as nat),
        s[0] >= 128 && s.len() >= 2 ==> decoded_int(s) < -128 * pow256((s.len() - 2) as nat),
{
    let sl = s.len();
    lemma_be_unsigned_head(s);
    lemma_be_unsigned_bound(s);
    lemma_be_unsigned_bound(s.skip(1));
    if sl == 1 {
        assert(s.skip(1) =~= Seq::<u8>::empty());
        assert(be_unsigned(Seq::<u8>::empty()) == 0);
        assert(pow256(0) == 1);
        assert(be_unsigned(s) == s[0]);
        if s[0] < 128 {
            assert(s[0] != 0);
        }
    } else {
        let p = pow256((sl - 2) as nat);
        let t = s.skip(1);
        lemma_pow256_pos((sl - 2) as nat);
        assert(pow256((sl - 1) as nat) == 256 * p);
        assert(t.len() == sl - 1);
        lemma_be_unsigned_head(t);
        lemma_be_unsigned_bound(t.skip(1));
        assert(t.skip(1).len() == sl - 2);
        assert(t[0] == s[1]);
        assert(be_unsigned(s) == s[0] * (256 * p) + be_unsigned(t));
        assert(be_unsigned(t) == s[1] * p + be_unsigned(t.skip(1)));
        if s[0] < 128 {
            if s[0] == 0 {
                assert(s[1] >= 128);
                assert(s[1] * p >= 128 * p) by (nonlinear_arith)
                    requires
                        s[1] >= 128,
                        p >= 0,
                ;
                assert(decoded_int(s) == be_unsigned(s));
                assert(be_unsigned(s) >= 128 * p);
            } else {
                assert(s[0] * (256 * p) >= 256 * p) by (nonlinear_arith)
                    requires
                        s[0] >= 1,
                        p >= 0,
                ;
                assert(be_unsigned(s) >= 128 * p);
            }
            assert(s[0] * (256 * p) <= 127 * (256 * p)) by (nonlinear_arith)
                requires
                    s[0] <= 127,
                    p >= 0,
            ;
            assert(be_unsigned(t) < 256 * p);
            assert(be_unsigned(s) < 128 * (256 * p));
            assert(decoded_int(s) >= 1);
        } else {
            assert(decoded_int(s) == be_unsigned(s) - pow256(sl));
            assert(pow256(sl) == 256 * (256 * p));
            assert(s[0] * (256 * p) >= 128 * (256 * p)) by (nonlinear_arith)
                requires
                    s[0] >= 128,
                    p >= 0,
            ;
            assert(decoded_int(s) >= -128 * (256 * p));
            if s[0] == 255 {
                assert(s[1] < 128);
                assert(s[1] * p <= 127 * p) by (nonlinear_arith)
                    requires
                        s[1] <= 127,
                        p >= 0,
                ;
                assert(be_unsigned(t) <= 128 * p - 1);
                assert(be_unsigned(s) <= 255 * (256 * p) + 128 * p - 1);
                assert(decoded_int(s) < -128 * p);
            } else {
                assert(s[0] * (256 * p) <= 254 * (256 * p)) by (nonlinear_arith)
                    requires
                        s[0] <= 254,
                        p >= 0,
                ;
                assert(be_unsigned(s) < 255 * (256 * p));
                assert(decoded_int(s) < -(256 * p));
                assert(decoded_int(s) < -128 * p);
            }
            assert(decoded_int(s) <= -1);
        }
    }
}

/// Equal lengths and equal unsigned readings force equal bytes.
proof fn lemma_be_injective(s: Seq<u8>, t: Seq<u8>)
    requires
        s.len() == t.len(),
        be_unsigned(s) == be_unsigned(t),
    ensures
        s == t,
    decreases s.len(),
{
    if s.len() == 0 {
        assert(s =~= t);
    } else {
        let a1 = be_unsigned(s.drop_last());
        let a2 = be_unsigned(t.drop_last());
        assert(a1 * 256 + s.last() == a2 * 256 + t.last());
        assert(a1 == a2 && s.last() == t.last());
        lemma_be_injective(s.drop_last(), t.drop_last());
        assert forall|i: int| 0 <= i < s.len() implies s[i] == t[i] by {
            if i < s.len() - 1 {
                assert(s[i] == s.drop_last()[i]);
                assert(t[i] == t.drop_last()[i]);
            }
        }
        assert(s =~= t);
    }
}

/// Every integer has at most one minimal encoding: two minimal atoms
/// denoting the same value are byte-for-byte identical, so decoding is a
/// bijection between minimal atoms and the integers.
pub proof fn lemma_minimal_unique(s: Seq<u8>, t: Seq<u8>)
    requires
        minimal(s),
        minimal(t),
        decoded_int(s) == decoded_int(t),
    ensures
        s == t,
{
    if s.len() == 0 && t.len() == 0 {
        assert(s =~= t);
    } else if s.len() == 0 {
        lemma_minimal_value_band(t);
        assert(false);
    } else if t.len() == 0 {
        lemma_minimal_value_band(s);
        assert(false);
    } else {
        lemma_minimal_value_band(s);
        lemma_minimal_value_band(t);
        if s[0] < 128 && t[0] < 128 {
            if s.len() < t.len() {
                lemma_pow256_increases((s.len() - 1) as nat, (t.len() - 2) as nat);
                assert(false);
            }
            if t.len() < s.len() {
                lemma_pow256_increases((t.len() - 1) as nat, (s.len() - 2) as nat);
                assert(false);
            }
            assert(be_unsigned(s) == be_unsigned(t));
        } else if s[0] >= 128 && t[0] >= 128 {
            if s.len() < t.len() {
                lemma_pow256_increases((s.len() - 1) as nat, (t.len() - 2) as nat);
                assert(false);
            }
            if t.len() < s.len() {
                lemma_pow256_increases((t.len() - 1) as nat, (s.len() - 2) as nat);
                assert(false);
            }
            assert(be_unsigned(s) == be_unsigned(t));
        } else {
            assert(false);
        }
        lemma_be_injective(s, t);
    }
}

/// An arbitrary-precision signed integer, held in its unique minimal
/// encoding. Its view is the mathematical integer it denotes.
#[derive(Debug)]
pub struct Number {
    bytes: Vec<u8>,
}

impl View for Number {
    type V = int;

    closed spec fn view(&self) -> int {
        decoded_int(self.bytes@)
    }
}

impl Number {
    /// The minimal byte encoding this number is held as.
    pub closed spec fn encoding(&self) -> Seq<u8> {
        self.bytes@
    }

    /// Minimality of the held encoding; every constructor establishes it.
    pub open spec fn wf(&self) -> bool {
        &&& minimal(self.encoding())
        &&& self@ == decoded_int(self.encoding())
    }
}

/// Reads an atom as a signed integer, stripping every redundant leading
/// byte on the way in.
pub fn number_from_u8(v: &[u8]) -> (n: Number)
    ensures
        n.encoding() == canonical(v@),
        n@ == decoded_int(v@),
        n.wf(),
{
    let len = v.len();
    let mut i: usize = 0;
    proof {
        assert(v@.skip(0) =~= v@);
    }
    loop
        invariant
            i <= len,
            len == v@.len(),
            canonical(v@) == canonical(v@.skip(i as int)),
        ensures
            i <= len,
            len == v@.len(),
            canonical(v@) == canonical(v@.skip(i as int)),
            canonical(v@.skip(i as int)) == v@.skip(i as int),
        decreases len - i,
    {
        let ghost t = v@.skip(i as int);
        if i >= len {
            proof {
                assert(t =~= Seq::<u8>::empty());
            }
            break ;
        }
        let b = v[i];
        if b == 0 && (i + 1 == len || v[i + 1] < 128) {
            proof {
                assert(t[0] == 0 && (t.len() == 1 || t[1] < 128));
                assert(t.skip(1) =~= v@.skip(i + 1));
            }
            i = i + 1;
        } else if b == 255 && i + 1 < len && v[i + 1] >= 128 {
            proof {
                assert(t.len() >= 2 && t[0] == 255 && t[1] >= 128);
                assert(t.skip(1) =~= v@.skip(i + 1));
            }
            i = i + 1;
        } else {
            proof {
                assert(t[0] == b);
                assert(t.len() == 1 || t[1] == v@[i + 1]);
                assert(canonical(t) == t);
            }
            break ;
        }
    }
    proof {
        assert(v@.subrange(i as int, len as int) =~= v@.skip(i as int));
        lemma_canonical_value(v@);
        lemma_canonical_minimal(v@);
    }
    let tail = slice_subrange(v, i, len);
    let bytes = slice_to_vec(tail);
    Number { bytes }
}

/// Writes a number back out: exactly its minimal encoding, never with a
/// non-significant leading byte.
pub fn u8_from_number(n: &Number) -> (r: Vec<u8>)
    ensures
        r@ == n.encoding(),
{
    slice_to_vec(n.bytes.as_slice())
}

} // verus!
