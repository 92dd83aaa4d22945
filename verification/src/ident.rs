//! Unbounded non-negative integer identifiers.
//!
//! An [`Ident`] stores a non-negative integer of arbitrary width as a vector
//! of base-2^64 limbs, least significant first, with no most-significant zero
//! limb. Its mathematical value is the view `ident@: nat`, so identifier
//! arithmetic and comparisons are specified over unbounded integers and can
//! never wrap around.

use vstd::prelude::*;
use vstd::std_specs::cmp::PartialEqSpec;
use vstd::arithmetic::power::{
    lemma_pow1, lemma_pow_adds, lemma_pow_increases, lemma_pow_positive, pow,
};
use vstd::arithmetic::div_mod::{lemma_fundamental_div_mod, lemma_fundamental_div_mod_converse};

verus! {

/// Radix of one limb.
pub open spec fn limb_base() -> nat {
    0x1_0000_0000_0000_0000nat
}

/// Value of a little-endian limb sequence.
pub open spec fn limbs_value(s: Seq<u64>) -> nat
    decreases s.len(),
{
    if s.len() == 0 {
        0
    } else {
        (s[0] + limb_base() * limbs_value(s.skip(1))) as nat
    }
}

/// A limb sequence is canonical when it has no most-significant zero limb,
/// which makes the representation of each value unique.
pub open spec fn limbs_canonical(s: Seq<u64>) -> bool {
    s.len() > 0 ==> s[s.len() - 1] != 0
}

/// `limb_base()` raised to `e`.
pub open spec fn pow_b(e: nat) -> nat {
    pow(limb_base() as int, e) as nat
}

proof fn lemma_value_empty()
    ensures
        limbs_value(Seq::<u64>::empty()) == 0,
{
}

proof fn lemma_pow_b_pos(e: nat)
    ensures
        pow(limb_base() as int, e) == pow_b(e),
        pow_b(e) >= 1,
{
    lemma_pow_positive(limb_base() as int, e);
}

proof fn lemma_pow_b_step(e: nat)
    ensures
        pow_b(e + 1) == limb_base() * pow_b(e),
{
    lemma_pow_b_pos(e);
    lemma_pow_b_pos((e + 1) as nat);
    lemma_pow_adds(limb_base() as int, 1, e);
    lemma_pow1(limb_base() as int);
}

/// Every limb sequence is worth less than the radix raised to its length.
proof fn lemma_value_bound(s: Seq<u64>)
    ensures
        limbs_value(s) < pow_b(s.len()),
    decreases s.len(),
{
    lemma_pow_b_pos(s.len());
    if s.len() > 0 {
        lemma_value_bound(s.skip(1));
        lemma_pow_b_step((s.len() - 1) as nat);
        let t = limbs_value(s.skip(1));
        let p = pow_b((s.len() - 1) as nat);
        assert(s[0] + limb_base() * t < limb_base() * p) by (nonlinear_arith)
            requires
                s[0] < limb_base(),
                t < p,
        ;
    }
}

/// A canonical, non-empty limb sequence is worth at least the radix raised to
/// one less than its length.
proof fn lemma_value_lower(s: Seq<u64>)
    requires
        s.len() > 0,
        s[s.len() - 1] != 0,
    ensures
        limbs_value(s) >= pow_b((s.len() - 1) as nat),
    decreases s.len(),
{
    if s.len() == 1 {
        lemma_pow_b_pos(0);
        assert(pow_b(0) == 1) by {
            vstd::arithmetic::power::lemma_pow0(limb_base() as int);
        }
    } else {
        lemma_value_lower(s.skip(1));
        lemma_pow_b_step((s.len() - 2) as nat);
        let t = limbs_value(s.skip(1));
        let p = pow_b((s.len() - 2) as nat);
        assert(s[0] + limb_base() * t >= limb_base() * p) by (nonlinear_arith)
            requires
                t >= p,
        ;
    }
}

/// Appending a most-significant limb adds its value scaled by the radix
/// raised to the old length.
proof fn lemma_value_push(s: Seq<u64>, x: u64)
    ensures
        limbs_value(s.push(x)) == limbs_value(s) + x * pow_b(s.len()),
    decreases s.len(),
{
    if s.len() == 0 {
        assert(s.push(x).skip(1) =~= Seq::<u64>::empty());
        lemma_value_empty();
        assert(s =~= Seq::<u64>::empty());
        assert(limbs_value(s.push(x)) == x + limb_base() * limbs_value(s.push(x).skip(1)));
        assert(pow_b(0) == 1) by {
            vstd::arithmetic::power::lemma_pow0(limb_base() as int);
        }
    } else {
        assert(s.push(x).skip(1) =~= s.skip(1).push(x));
        lemma_value_push(s.skip(1), x);
        lemma_pow_b_step((s.len() - 1) as nat);
        let t = limbs_value(s.skip(1));
        let p = pow_b((s.len() - 1) as nat);
        assert(limb_base() * (t + x * p) == limb_base() * t + x * (limb_base() * p))
            by (nonlinear_arith);
    }
}

/// The value of a sequence splits at any index into a low part and a
/// scaled high part.
proof fn lemma_value_split(s: Seq<u64>, i: int)
    requires
        0 <= i <= s.len(),
    ensures
        limbs_value(s) == limbs_value(s.take(i)) + pow_b(i as nat) * limbs_value(s.skip(i)),
    decreases i,
{
    if i == 0 {
        assert(s.take(0) =~= Seq::<u64>::empty());
        assert(s.skip(0) =~= s);
        lemma_value_empty();
        assert(pow_b(0) == 1) by {
            vstd::arithmetic::power::lemma_pow0(limb_base() as int);
        }
        assert(limbs_value(s.take(i)) == 0);
        assert(limbs_value(s.skip(i)) == limbs_value(s));
        assert(pow_b(i as nat) == 1);
        let v = limbs_value(s);
        assert(v == 0 + 1 * v);
    } else {
        lemma_value_split(s, i - 1);
        assert(s.take(i) =~= s.take(i - 1).push(s[i - 1]));
        lemma_value_push(s.take(i - 1), s[i - 1]);
        assert(s.skip(i - 1).skip(1) =~= s.skip(i));
        lemma_pow_b_step((i - 1) as nat);
        let p1 = pow_b((i - 1) as nat);
        let pi = pow_b(i as nat);
        let tl = limbs_value(s.take(i - 1));
        let ti = limbs_value(s.take(i));
        let k1 = limbs_value(s.skip(i - 1));
        let ki = limbs_value(s.skip(i));
        let d = s[i - 1];
        assert(ti == tl + d * p1);
        assert(pi == limb_base() * p1);
        assert(limbs_value(s) == tl + p1 * k1);
        assert(k1 == d + limb_base() * ki);
        assert(limbs_value(s) == ti + pi * ki) by (nonlinear_arith)
            requires
                ti == tl + d * p1,
                pi == limb_base() * p1,
                limbs_value(s) == tl + p1 * k1,
                k1 == d + limb_base() * ki,
        ;
    }
}

/// If two equally long sequences agree strictly above index `i` and differ
/// in favour of `b` at `i`, then `b` is worth more.
proof fn lemma_lt_at(a: Seq<u64>, b: Seq<u64>, i: int)
    requires
        a.len() == b.len(),
        0 <= i < a.len(),
        a.skip(i + 1) =~= b.skip(i + 1),
        a[i] < b[i],
    ensures
        limbs_value(a) < limbs_value(b),
{
    lemma_value_split(a, i);
    lemma_value_split(b, i);
    assert(a.skip(i).skip(1) =~= a.skip(i + 1));
    assert(b.skip(i).skip(1) =~= b.skip(i + 1));
    let hi = limbs_value(a.skip(i + 1));
    assert(limbs_value(a.skip(i)) == a[i] + limb_base() * hi);
    assert(limbs_value(b.skip(i)) == b[i] + limb_base() * hi);
    lemma_value_bound(a.take(i));
    lemma_value_bound(b.take(i));
    assert(a.take(i).len() == i && b.take(i).len() == i);
    let p = pow_b(i as nat);
    let la = limbs_value(a.take(i));
    let lb = limbs_value(b.take(i));
    lemma_pow_b_pos(i as nat);
    assert(la + p * (a[i] + limb_base() * hi) < lb + p * (b[i] + limb_base() * hi))
        by (nonlinear_arith)
        requires
            la < p,
            lb >= 0,
            p >= 1,
            a[i] < b[i],
            hi >= 0,
    ;
}

/// Sequences of equal length that are worth the same are identical.
proof fn lemma_inj_fixed_len(a: Seq<u64>, b: Seq<u64>)
    requires
        a.len() == b.len(),
        limbs_value(a) == limbs_value(b),
    ensures
        a =~= b,
    decreases a.len(),
{
    if a.len() > 0 {
        let x = limbs_value(a.skip(1));
        let y = limbs_value(b.skip(1));
        lemma_fundamental_div_mod_converse(
            limbs_value(a) as int,
            limb_base() as int,
            x as int,
            a[0] as int,
        );
        lemma_fundamental_div_mod_converse(
            limbs_value(b) as int,
            limb_base() as int,
            y as int,
            b[0] as int,
        );
        lemma_inj_fixed_len(a.skip(1), b.skip(1));
        assert(a =~= b) by {
            assert(forall|j: int| 1 <= j < a.len() ==> a[j] == a.skip(1)[j - 1]);
            assert(forall|j: int| 1 <= j < b.len() ==> b[j] == b.skip(1)[j - 1]);
        }
    }
}

/// Canonical sequences that are worth the same are identical.
proof fn lemma_canonical_inj(a: Seq<u64>, b: Seq<u64>)
    requires
        limbs_canonical(a),
        limbs_canonical(b),
        limbs_value(a) == limbs_value(b),
    ensures
        a =~= b,
{
    if a.len() < b.len() {
        lemma_value_bound(a);
        lemma_value_lower(b);
        lemma_pow_increases(limb_base(), a.len(), (b.len() - 1) as nat);
        lemma_pow_b_pos(a.len());
        lemma_pow_b_pos((b.len() - 1) as nat);
        assert(false);
    } else if b.len() < a.len() {
        lemma_value_bound(b);
        lemma_value_lower(a);
        lemma_pow_increases(limb_base(), b.len(), (a.len() - 1) as nat);
        lemma_pow_b_pos(b.len());
        lemma_pow_b_pos((a.len() - 1) as nat);
        assert(false);
    } else {
        lemma_inj_fixed_len(a, b);
    }
}

/// An unbounded non-negative integer identifier.
pub struct Ident {
    limbs: Vec<u64>,
}

impl View for Ident {
    type V = nat;

    closed spec fn view(&self) -> nat {
        limbs_value(self.limbs@)
    }
}

impl Ident {
    /// The stored limbs are in canonical form. Every `Ident` the library
    /// hands out satisfies this, and every operation preserves it.
    pub closed spec fn wf(&self) -> bool {
        limbs_canonical(self.limbs@)
    }

    /// The identifier zero.
    pub fn zero() -> (r: Ident)
        ensures
            r@ == 0,
            r.wf(),
    {
        Ident { limbs: Vec::new() }
    }

    /// The identifier with the given native value.
    pub fn from_u64(v: u64) -> (r: Ident)
        ensures
            r@ == v,
            r.wf(),
    {
        if v == 0 {
            Ident::zero()
        } else {
            let mut limbs: Vec<u64> = Vec::new();
            limbs.push(v);
            proof {
                assert(limbs@.skip(1) =~= Seq::<u64>::empty());
                lemma_value_empty();
                assert(limbs_value(limbs@) == v + limb_base() * limbs_value(limbs@.skip(1)));
            }
            Ident { limbs }
        }
    }

    /// The sum of this identifier and a native value. Unbounded: the result
    /// is exactly `self@ + d` however many limbs that takes.
    pub fn add_u64(&self, d: u64) -> (r: Ident)
        requires
            self.wf(),
        ensures
            r.wf(),
            r@ == self@ + d,
    {
        let n: usize = self.limbs.len();
        let mut out: Vec<u64> = Vec::new();
        let mut carry: u64 = d;
        let mut i: usize = 0;
        proof {
            assert(self.limbs@.take(0) =~= Seq::<u64>::empty());
            lemma_pow_b_pos(0);
            assert(pow_b(0) == 1) by {
                vstd::arithmetic::power::lemma_pow0(limb_base() as int);
            }
        }
        while i < n
            invariant
                n == self.limbs@.len(),
                i <= n,
                out@.len() == i,
                limbs_canonical(self.limbs@),
                limbs_value(out@) + carry * pow_b(i as nat) == limbs_value(self.limbs@.take(i as int)) + d,
                carry == 0 && i == n && n > 0 ==> out@[i - 1] != 0,
                i < n ==> carry <= 0xFFFF_FFFF_FFFF_FFFFu64,
            decreases n - i,
        {
            let limb: u64 = self.limbs[i];
            let s: u128 = limb as u128 + carry as u128;
            let lo: u64 = (s % 0x1_0000_0000_0000_0000u128) as u64;
            let hi: u64 = (s / 0x1_0000_0000_0000_0000u128) as u64;
            proof {
                lemma_fundamental_div_mod(s as int, limb_base() as int);
                lemma_pow_b_step(i as nat);
                assert(self.limbs@.take(i + 1) =~= self.limbs@.take(i as int).push(limb));
                lemma_value_push(self.limbs@.take(i as int), limb);
                lemma_value_push(out@, lo);
                let p = pow_b(i as nat);
                assert((lo + limb_base() * hi) * p == lo * p + hi * (limb_base() * p))
                    by (nonlinear_arith);
                assert((limb + carry) * p == limb * p + carry * p) by (nonlinear_arith);
                if hi == 0 && i + 1 == n {
                    // the top limb of the result is `lo`; it cannot be zero,
                    // because `s >= limb >= 1` and `s == lo` when `hi == 0`
                    assert(limb > 0);
                }
            }
            out.push(lo);
            carry = hi;
            i = i + 1;
        }
        proof {
            assert(self.limbs@.take(n as int) =~= self.limbs@);
        }
        if carry > 0 {
            proof {
                lemma_value_push(out@, carry);
            }
            out.push(carry);
        }
        Ident { limbs: out }
    }

    /// Strict comparison by mathematical value.
    pub fn lt(&self, other: &Ident) -> (r: bool)
        requires
            self.wf(),
            other.wf(),
        ensures
            r == (self@ < other@),
    {
        let n: usize = self.limbs.len();
        let m: usize = other.limbs.len();
        if n != m {
            proof {
                let (short, long) = if n < m {
                    (self.limbs@, other.limbs@)
                } else {
                    (other.limbs@, self.limbs@)
                };
                lemma_value_bound(short);
                lemma_value_lower(long);
                lemma_pow_increases(limb_base(), short.len(), (long.len() - 1) as nat);
                lemma_pow_b_pos(short.len());
                lemma_pow_b_pos((long.len() - 1) as nat);
            }
            return n < m;
        }
        let mut i: usize = n;
        while i > 0
            invariant
                n == self.limbs@.len(),
                n == other.limbs@.len(),
                i <= n,
                self.limbs@.skip(i as int) =~= other.limbs@.skip(i as int),
            decreases i,
        {
            i = i - 1;
            let a: u64 = self.limbs[i];
            let b: u64 = other.limbs[i];
            if a != b {
                proof {
                    if a < b {
                        lemma_lt_at(self.limbs@, other.limbs@, i as int);
                    } else {
                        lemma_lt_at(other.limbs@, self.limbs@, i as int);
                    }
                }
                return a < b;
            }
            proof {
                assert(self.limbs@.skip(i as int) =~= other.limbs@.skip(i as int)) by {
                    assert(forall|j: int| i + 1 <= j < n ==> self.limbs@[j] == other.limbs@[j])
                        by {
                        assert(forall|j: int|
                            i + 1 <= j < n ==> self.limbs@[j] == self.limbs@.skip(i + 1)[j - i - 1]
                                && other.limbs@[j] == other.limbs@.skip(i + 1)[j - i - 1]);
                    }
                }
            }
        }
        proof {
            assert(self.limbs@.skip(0) =~= self.limbs@);
            assert(other.limbs@.skip(0) =~= other.limbs@);
        }
        false
    }
}

impl Clone for Ident {
    /// A clone is worth the same and is again canonical.
    fn clone(&self) -> (r: Ident)
        ensures
            r@ == self@,
            r.wf() == self.wf(),
    {
        let limbs: Vec<u64> = self.limbs.clone();
        proof {
            assert(forall|j: int| 0 <= j < self.limbs@.len() ==> limbs@[j] == self.limbs@[j]);
            assert(limbs@ =~= self.limbs@);
        }
        Ident { limbs }
    }
}

impl PartialEq for Ident {
    /// Limb-wise equality; for canonical identifiers this coincides with
    /// equality of mathematical values (`lemma_eq_is_value_eq`).
    fn eq(&self, other: &Ident) -> (r: bool) {
        let n: usize = self.limbs.len();
        if n != other.limbs.len() {
            proof {
                assert(self.limbs@ != other.limbs@);
            }
            return false;
        }
        let mut i: usize = 0;
        while i < n
            invariant
                n == self.limbs@.len(),
                n == other.limbs@.len(),
                i <= n,
                forall|j: int| 0 <= j < i ==> self.limbs@[j] == other.limbs@[j],
            decreases n - i,
        {
            if self.limbs[i] != other.limbs[i] {
                proof {
                    assert(self.limbs@ != other.limbs@);
                }
                return false;
            }
            i = i + 1;
        }
        proof {
            assert(self.limbs@ =~= other.limbs@);
        }
        true
    }
}

impl vstd::std_specs::cmp::PartialEqSpecImpl for Ident {
    open spec fn obeys_eq_spec() -> bool {
        true
    }

    closed spec fn eq_spec(&self, other: &Ident) -> bool {
        self.limbs@ == other.limbs@
    }
}

/// For canonical identifiers, `==` decides equality of mathematical values.
pub proof fn lemma_eq_is_value_eq(a: &Ident, b: &Ident)
    requires
        a.wf(),
        b.wf(),
    ensures
        a.eq_spec(b) <==> a@ == b@,
{
    if a@ == b@ {
        lemma_canonical_inj(a.limbs@, b.limbs@);
    }
}

} // verus!
