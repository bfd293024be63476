//! The big natural number itself: its limb representation, the CANONICAL
//! invariant, canonicalization of arbitrary limb sequences, and deep
//! duplication.

use vstd::arithmetic::div_mod::lemma_fundamental_div_mod_converse;
use vstd::arithmetic::mul::lemma_mul_inequality;
use vstd::arithmetic::power2::lemma2_to64;
use vstd::arithmetic::power2::lemma_pow2_adds;
use vstd::arithmetic::power2::lemma_pow2_pos;
use vstd::arithmetic::power2::lemma_pow2_strictly_increases;
use vstd::arithmetic::power2::pow2;
use vstd::prelude::*;

verus! {

/// A non-negative integer of unbounded size. `data[0]` is the least
/// significant limb; the represented value is
/// `sum over i of data[i] * 2^(64 * i)`, so an empty sequence represents
/// zero. Every constructor establishes CANONICAL: the sequence never ends in
/// a zero limb.
pub struct BigInt {
    pub data: Vec<u64>,
}

/// CANONICAL: the limb sequence is empty, or its last limb is non-zero.
pub open spec fn canonical(s: Seq<u64>) -> bool {
    s.len() == 0 || s[s.len() - 1] != 0
}

/// `s` with all trailing zero limbs removed: the unique canonical sequence
/// denoting the same integer as `s`.
pub open spec fn strip_trailing_zeros(s: Seq<u64>) -> Seq<u64>
    decreases s.len(),
{
    if canonical(s) {
        s
    } else {
        strip_trailing_zeros(s.drop_last())
    }
}

/// The integer a limb sequence denotes: `sum over i of s[i] * 2^(64 * i)`.
pub open spec fn limbs_value(s: Seq<u64>) -> nat
    decreases s.len(),
{
    if s.len() == 0 {
        0
    } else {
        limbs_value(s.drop_last()) + (s.last() as nat) * pow2((64 * (s.len() - 1)) as nat)
    }
}

/// Canonicalization always yields a canonical sequence.
pub proof fn lemma_strip_canonical(s: Seq<u64>)
    ensures
        canonical(strip_trailing_zeros(s)),
    decreases s.len(),
{
    if !canonical(s) {
        lemma_strip_canonical(s.drop_last());
    }
}

/// Canonicalizing twice is the same as canonicalizing once: a canonical
/// sequence is left untouched.
pub proof fn lemma_strip_idempotent(s: Seq<u64>)
    ensures
        strip_trailing_zeros(strip_trailing_zeros(s)) == strip_trailing_zeros(s),
{
    lemma_strip_canonical(s);
}

/// Removing trailing zero limbs does not change the denoted integer.
pub proof fn lemma_strip_preserves_value(s: Seq<u64>)
    ensures
        limbs_value(strip_trailing_zeros(s)) == limbs_value(s),
    decreases s.len(),
{
    if !canonical(s) {
        lemma_strip_preserves_value(s.drop_last());
    }
}

/// The canonical form of `s` is a prefix of `s`, and every limb of `s`
/// beyond that prefix is zero.
pub proof fn lemma_strip_is_prefix(s: Seq<u64>)
    ensures
        strip_trailing_zeros(s).len() <= s.len(),
        strip_trailing_zeros(s) == s.subrange(0, strip_trailing_zeros(s).len() as int),
        forall|i: int| strip_trailing_zeros(s).len() <= i < s.len() ==> s[i] == 0,
    decreases s.len(),
{
    if canonical(s) {
        assert(s =~= s.subrange(0, s.len() as int));
    } else {
        lemma_strip_is_prefix(s.drop_last());
        let t = strip_trailing_zeros(s);
        assert(t =~= s.subrange(0, t.len() as int));
        assert forall|i: int| t.len() <= i < s.len() implies s[i] == 0 by {
            if i < s.len() - 1 {
                assert(s.drop_last()[i] == 0);
            }
        }
    }
}

/// A sequence of `n` limbs denotes an integer below `2^(64 * n)`.
pub proof fn lemma_limbs_value_bound(s: Seq<u64>)
    ensures
        limbs_value(s) < pow2((64 * s.len()) as nat),
    decreases s.len(),
{
    lemma2_to64();
    if s.len() > 0 {
        lemma_limbs_value_bound(s.drop_last());
        let e: nat = (64 * (s.len() - 1)) as nat;
        lemma_pow2_adds(e, 64);
        lemma_mul_inequality(s.last() as int, 0xffff_ffff_ffff_ffff, pow2(e) as int);
    }
}

/// A non-empty canonical sequence of `n` limbs denotes an integer of at
/// least `2^(64 * (n - 1))`: its top limb contributes.
pub proof fn lemma_canonical_value_lower_bound(s: Seq<u64>)
    requires
        canonical(s),
        s.len() > 0,
    ensures
        limbs_value(s) >= pow2((64 * (s.len() - 1)) as nat),
{
    let e: nat = (64 * (s.len() - 1)) as nat;
    lemma_mul_inequality(1, s.last() as int, pow2(e) as int);
}

/// Equal-length limb sequences denoting the same integer are equal: with
/// the length fixed, the limbs are the base-`2^64` digits of the value.
proof fn lemma_fixed_width_value_injective(a: Seq<u64>, b: Seq<u64>)
    requires
        a.len() == b.len(),
        limbs_value(a) == limbs_value(b),
    ensures
        a == b,
    decreases a.len(),
{
    if a.len() == 0 {
        assert(a =~= b);
    } else {
        let e: nat = (64 * (a.len() - 1)) as nat;
        let p = pow2(e);
        lemma_pow2_pos(e);
        lemma_limbs_value_bound(a.drop_last());
        lemma_limbs_value_bound(b.drop_last());
        lemma_fundamental_div_mod_converse(
            limbs_value(a) as int,
            p as int,
            a.last() as int,
            limbs_value(a.drop_last()) as int,
        );
        lemma_fundamental_div_mod_converse(
            limbs_value(b) as int,
            p as int,
            b.last() as int,
            limbs_value(b.drop_last()) as int,
        );
        lemma_fixed_width_value_injective(a.drop_last(), b.drop_last());
        assert(a =~= a.drop_last().push(a.last()));
        assert(b =~= b.drop_last().push(b.last()));
    }
}

/// A sequence with fewer limbs than a non-empty canonical one denotes a
/// strictly smaller integer.
proof fn lemma_shorter_has_smaller_value(a: Seq<u64>, b: Seq<u64>)
    requires
        canonical(b),
        a.len() < b.len(),
    ensures
        limbs_value(a) < limbs_value(b),
{
    lemma_limbs_value_bound(a);
    lemma_canonical_value_lower_bound(b);
    let ea: nat = (64 * a.len()) as nat;
    let eb: nat = (64 * (b.len() - 1)) as nat;
    if ea < eb {
        lemma_pow2_strictly_increases(ea, eb);
    }
}

/// Canonical representations are unique: two canonical limb sequences
/// denoting the same integer are equal, so element-wise equality of
/// canonical numbers coincides with mathematical equality.
pub proof fn lemma_canonical_value_unique(a: Seq<u64>, b: Seq<u64>)
    requires
        canonical(a),
        canonical(b),
        limbs_value(a) == limbs_value(b),
    ensures
        a == b,
{
    if a.len() < b.len() {
        lemma_shorter_has_smaller_value(a, b);
    } else if b.len() < a.len() {
        lemma_shorter_has_smaller_value(b, a);
    } else {
        lemma_fixed_width_value_injective(a, b);
    }
}

impl BigInt {
    /// Builds the number `x`: no limbs at all when `x` is zero, else the
    /// single limb `x`. The result is canonical and denotes `x`.
    pub fn new(x: u64) -> (r: Self)
        ensures
            x == 0 ==> r.data@ == Seq::<u64>::empty(),
            x != 0 ==> r.data@ == seq![x],
            canonical(r.data@),
            limbs_value(r.data@) == x as nat,
    {
        if x == 0 {
            let r = BigInt { data: vec![] };
            proof {
                assert(r.data@ =~= Seq::<u64>::empty());
            }
            r
        } else {
            let r = BigInt { data: vec![x] };
            proof {
                assert(r.data@ =~= seq![x]);
                let s: Seq<u64> = seq![x];
                assert(s.drop_last() =~= Seq::<u64>::empty());
                assert(limbs_value(s.drop_last()) == 0);
                lemma2_to64();
                assert((64 * (s.len() - 1)) as nat == 0);
                assert(limbs_value(s) == (x as nat) * pow2(0));
            }
            r
        }
    }

    /// True exactly when the stored limb sequence satisfies CANONICAL. The
    /// constructors always produce `true`; a `false` can only come from a
    /// direct construction that bypassed them.
    pub fn test_invariant(&self) -> (r: bool)
        ensures
            r == canonical(self.data@),
    {
        if self.data.len() == 0 {
            true
        } else {
            self.data[self.data.len() - 1] != 0
        }
    }

    /// Adopts an arbitrary limb sequence as a number, truncating trailing
    /// zero limbs in place: the result is canonical, equals the input with
    /// all trailing zeros removed, and denotes the same integer.
    pub fn from_vec(v: Vec<u64>) -> (r: Self)
        ensures
            r.data@ == strip_trailing_zeros(v@),
            canonical(r.data@),
            limbs_value(r.data@) == limbs_value(v@),
    {
        let mut v = v;
        let ghost orig: Seq<u64> = v@;
        while v.len() > 0 && v[v.len() - 1] == 0
            invariant
                strip_trailing_zeros(v@) == strip_trailing_zeros(orig),
            decreases v@.len(),
        {
            proof {
                assert(v@.subrange(0, v@.len() - 1) =~= v@.drop_last());
            }
            v.pop();
        }
        proof {
            lemma_strip_canonical(orig);
            lemma_strip_preserves_value(orig);
        }
        BigInt { data: v }
    }
}

impl Clone for BigInt {
    /// Deep duplication: the copy owns a fresh buffer holding the very same
    /// limbs, so a canonical original yields a canonical copy.
    fn clone(&self) -> (r: Self)
        ensures
            r.data@ == self.data@,
            canonical(self.data@) ==> canonical(r.data@),
    {
        let d = self.data.clone();
        proof {
            assert forall|i: int| 0 <= i < self.data@.len() implies d@[i] == self.data@[i] by {
                assert(cloned::<u64>(self.data@[i], d@[i]));
            }
            assert(d@ =~= self.data@);
        }
        BigInt { data: d }
    }
}

/// Adopting a deep copy of a buffer and adopting the buffer itself yield the
/// same number: `clone` on the vector keeps the caller's access alive where
/// passing the vector by value would consume it.
#[allow(dead_code)]
fn clone_demo() {
    let v: Vec<u64> = vec![0, 1 << 16];
    let w = v.clone();
    proof {
        assert forall|i: int| 0 <= i < v@.len() implies w@[i] == v@[i] by {
            assert(cloned::<u64>(v@[i], w@[i]));
        }
        assert(w@ =~= v@);
    }
    let b1 = BigInt::from_vec(w);
    let b2 = BigInt::from_vec(v);
    assert(b1.data@ == b2.data@);
}

} // verus!
