//! Non-negative IEEE 754 double-precision arithmetic, carried out on integers.
//!
//! The bar places its seek fill, its seek target and its thumbnails by fractions in double
//! precision. Here such a fraction is a significand and an exponent, and each operation returns
//! the exact result rounded to the nearest double, ties to even: the number that the hardware
//! computes, bit for bit, but with a definition that proofs can use.
//!
//! Every finite double is a whole number of quanta of 2^-1074, so contracts measure doubles in
//! quanta: the double with significand `sig` and biased exponent `exp` is `sig * 2^exp` quanta.
use vstd::arithmetic::div_mod::*;
use vstd::arithmetic::mul::*;
use vstd::arithmetic::power2::*;
use vstd::prelude::*;

verus! {

/// The smallest significand of a normal double, 2^52.
pub const SIG_MIN: u64 = 0x10_0000_0000_0000;

/// One more than the largest significand, 2^53.
pub const SIG_END: u64 = 0x20_0000_0000_0000;

/// The biased exponent of a significand that counts whole units.
pub const BIAS: u32 = 1074;

/// A non-negative double as mathematics sees it.
pub struct Value {
    pub sig: nat,
    pub exp: nat,
}

impl Value {
    /// The size of the double, in quanta of 2^-1074.
    pub open spec fn quanta(self) -> nat {
        self.sig * pow2(self.exp)
    }

    /// Zero, or a significand of exactly 53 bits.
    pub open spec fn normal(self) -> bool {
        (self.sig == 0 && self.exp == 0) || SIG_MIN <= self.sig < SIG_END
    }

    /// The whole part of the double.
    pub open spec fn floor(self) -> nat {
        self.quanta() / unit()
    }
}

/// The number one, in quanta.
pub open spec fn unit() -> nat {
    pow2(BIAS as nat)
}

/// The integer nearest to `n / d`; of two equally near, the even one.
pub open spec fn nearest(n: nat, d: nat) -> nat {
    let q = n / d;
    let r = n % d;
    if 2 * r < d || (2 * r == d && q % 2 == 0) {
        q
    } else {
        q + 1
    }
}

/// `n / d` quanta lie where doubles have the biased exponent `exp`.
pub open spec fn in_binade(n: nat, d: nat, exp: nat) -> bool {
    SIG_MIN * (d * pow2(exp)) <= n < SIG_END * (d * pow2(exp))
}

/// A significand that rounding carried to 2^53 moves up one binade.
pub open spec fn packed(sig: nat, exp: nat) -> Value {
    if sig == SIG_END {
        Value { sig: SIG_MIN as nat, exp: exp + 1 }
    } else {
        Value { sig, exp }
    }
}

/// The double nearest to `n / d` quanta, ties to even.
pub open spec fn rounded(n: nat, d: nat) -> Value {
    if n == 0 {
        Value { sig: 0, exp: 0 }
    } else {
        let exp = choose|exp: nat| in_binade(n, d, exp);
        packed(nearest(n, d * pow2(exp)), exp)
    }
}

/// The double nearest to the integer `n`.
pub open spec fn of_nat(n: nat) -> Value {
    rounded(n * unit(), 1)
}

/// The double nearest to `a / b`.
pub open spec fn quotient(a: Value, b: Value) -> Value {
    rounded(a.quanta() * unit(), b.quanta())
}

/// The double nearest to `a * b`.
pub open spec fn product(a: Value, b: Value) -> Value {
    rounded(a.quanta() * b.quanta(), unit())
}

proof fn lemma_nearest_bounds(n: nat, d: nat)
    requires
        d > 0,
    ensures
        2 * nearest(n, d) * d <= 2 * n + d,
        2 * n <= 2 * nearest(n, d) * d + d,
        n / d <= nearest(n, d) <= n / d + 1,
{
    let q = n / d;
    let r = n % d;
    lemma_fundamental_div_mod(n as int, d as int);
    lemma_mod_bound(n as int, d as int);
    assert(n == d * q + r);
    assert(2 * q * d == 2 * (d * q)) by (nonlinear_arith);
    assert(2 * (q + 1) * d == 2 * (d * q) + 2 * d) by (nonlinear_arith);
}

/// Rounding to an integer depends on the ratio alone, and keeps its order.
proof fn lemma_nearest_monotone(n1: nat, d1: nat, n2: nat, d2: nat)
    requires
        d1 > 0,
        d2 > 0,
        n1 * d2 <= n2 * d1,
    ensures
        nearest(n1, d1) <= nearest(n2, d2),
{
    let (q1, r1) = (n1 / d1, n1 % d1);
    let (q2, r2) = (n2 / d2, n2 % d2);
    lemma_fundamental_div_mod(n1 as int, d1 as int);
    lemma_mod_bound(n1 as int, d1 as int);
    lemma_fundamental_div_mod(n2 as int, d2 as int);
    lemma_mod_bound(n2 as int, d2 as int);
    assert(q1 * (d1 * d2) + r1 * d2 <= q2 * (d1 * d2) + r2 * d1) by (nonlinear_arith)
        requires
            n1 == d1 * q1 + r1,
            n2 == d2 * q2 + r2,
            n1 * d2 <= n2 * d1,
    ;
    assert(r2 * d1 < d1 * d2) by (nonlinear_arith)
        requires
            0 <= r2 < d2,
            d1 > 0,
    ;
    assert(r1 * d2 >= 0) by (nonlinear_arith)
        requires
            r1 >= 0,
            d2 > 0,
    ;
    assert(q1 < q2 + 1) by (nonlinear_arith)
        requires
            q1 * (d1 * d2) + r1 * d2 <= q2 * (d1 * d2) + r2 * d1,
            r2 * d1 < d1 * d2,
            r1 * d2 >= 0,
    ;
    if q1 == q2 {
        assert(r1 * d2 <= r2 * d1);
        assert(2 * r1 >= d1 ==> 2 * r2 >= d2) by (nonlinear_arith)
            requires
                r1 * d2 <= r2 * d1,
                d1 > 0,
                d2 > 0,
        ;
        assert(2 * r1 > d1 ==> 2 * r2 > d2) by (nonlinear_arith)
            requires
                r1 * d2 <= r2 * d1,
                d1 > 0,
                d2 > 0,
        ;
    }
}

/// A ratio lies in one binade only.
proof fn lemma_binade_unique(n: nat, d: nat, e: nat, f: nat)
    requires
        d > 0,
        in_binade(n, d, e),
        in_binade(n, d, f),
    ensures
        e == f,
{
    if e < f {
        lemma_binade_order(n, d, e, n, d, f);
    } else if f < e {
        lemma_binade_order(n, d, f, n, d, e);
    }
}

/// A ratio in a lower binade is the smaller one.
proof fn lemma_binade_order(n1: nat, d1: nat, e1: nat, n2: nat, d2: nat, e2: nat)
    requires
        d1 > 0,
        d2 > 0,
        in_binade(n1, d1, e1),
        in_binade(n2, d2, e2),
        e1 < e2,
    ensures
        n1 * d2 < n2 * d1,
        SIG_END * pow2(e1) <= SIG_MIN * pow2(e2),
{
    let (p1, p2) = (pow2(e1), pow2(e2));
    lemma_pow2_pos(e1);
    lemma_double_power(e1, e2);
    assert(SIG_END * p1 <= SIG_MIN * p2);
    assert(n1 * d2 < (SIG_END * (d1 * p1)) * d2) by (nonlinear_arith)
        requires
            n1 < SIG_END * (d1 * p1),
            d2 > 0,
    ;
    assert((SIG_MIN * (d2 * p2)) * d1 <= n2 * d1) by (nonlinear_arith)
        requires
            SIG_MIN * (d2 * p2) <= n2,
            d1 > 0,
    ;
    assert((SIG_END * (d1 * p1)) * d2 == (SIG_END * p1) * (d1 * d2)) by (nonlinear_arith);
    assert((SIG_MIN * (d2 * p2)) * d1 == (SIG_MIN * p2) * (d1 * d2)) by (nonlinear_arith);
    assert((SIG_END * p1) * (d1 * d2) <= (SIG_MIN * p2) * (d1 * d2)) by (nonlinear_arith)
        requires
            SIG_END * p1 <= SIG_MIN * p2,
            d1 > 0,
            d2 > 0,
    ;
}

proof fn lemma_pow2_increases(e1: nat, e2: nat)
    ensures
        e1 <= e2 ==> pow2(e1) <= pow2(e2),
{
    if e1 < e2 {
        lemma_pow2_strictly_increases(e1, e2);
    }
}

proof fn lemma_double_power(e1: nat, e2: nat)
    requires
        e1 < e2,
    ensures
        2 * pow2(e1) <= pow2(e2),
{
    lemma_pow2_unfold(e1 + 1);
    if e1 + 1 < e2 {
        lemma_pow2_strictly_increases(e1 + 1, e2);
    }
}

/// A ratio that a significand can count lies in some binade.
proof fn lemma_binade_exists(n: nat, d: nat, e: nat) -> (exp: nat)
    requires
        d > 0,
        SIG_MIN * (d * pow2(e)) <= n,
    ensures
        in_binade(n, d, exp),
    decreases n - SIG_MIN * (d * pow2(e)),
{
    if n < SIG_END * (d * pow2(e)) {
        e
    } else {
        lemma_pow2_unfold(e + 1);
        lemma_pow2_pos(e);
        assert(d * pow2(e + 1) == 2 * (d * pow2(e))) by (nonlinear_arith)
            requires
                pow2(e + 1) == 2 * pow2(e),
        ;
        assert(d * pow2(e) > 0) by (nonlinear_arith)
            requires
                d > 0,
                pow2(e) > 0,
        ;
        lemma_binade_exists(n, d, e + 1)
    }
}

/// What `rounded` is, once the binade is known.
proof fn lemma_rounded_in(n: nat, d: nat, exp: nat)
    requires
        d > 0,
        n > 0,
        in_binade(n, d, exp),
    ensures
        rounded(n, d) == packed(nearest(n, d * pow2(exp)), exp),
        SIG_MIN <= nearest(n, d * pow2(exp)) <= SIG_END,
        rounded(n, d).quanta() == nearest(n, d * pow2(exp)) * pow2(exp),
        rounded(n, d).normal(),
{
    let chosen = choose|e: nat| in_binade(n, d, e);
    assert(in_binade(n, d, chosen));
    lemma_binade_unique(n, d, exp, chosen);
    let b = d * pow2(exp);
    lemma_pow2_pos(exp);
    assert(b > 0) by (nonlinear_arith)
        requires
            b == d * pow2(exp),
            d > 0,
            pow2(exp) > 0,
    ;
    lemma_mul_inequality(SIG_MIN * b, n as int, b as int);
    lemma_mul_inequality(n as int, SIG_END * b, b as int);
    lemma_nearest_monotone((SIG_MIN * b) as nat, b, n, b);
    lemma_nearest_monotone(n, b, (SIG_END * b) as nat, b);
    lemma_nearest_multiple(SIG_MIN as nat, b);
    lemma_nearest_multiple(SIG_END as nat, b);
    lemma_pow2_unfold(exp + 1);
    assert(SIG_MIN * (2 * pow2(exp)) == SIG_END * pow2(exp)) by (nonlinear_arith);
}

proof fn lemma_nearest_multiple(m: nat, b: nat)
    requires
        b > 0,
    ensures
        nearest(m * b, b) == m,
{
    lemma_div_by_multiple(m as int, b as int);
    lemma_mod_multiples_basic(m as int, b as int);
}

proof fn lemma_powers()
    ensures
        pow2(0) == 1,
        pow2(11) == 0x800,
        pow2(52) == SIG_MIN,
        pow2(53) == SIG_END,
        unit() > 0,
{
    lemma2_to64();
    lemma_pow2_adds(20, 32);
    lemma_pow2_adds(21, 32);
    lemma_pow2_pos(BIAS as nat);
}

/// A rounding step done on small integers: `n / d` quanta lie in the binade `exp`, and there
/// `num / den` counts them.
proof fn lemma_rounded_by(n: nat, d: nat, exp: nat, num: nat, den: nat)
    requires
        d > 0,
        den > 0,
        SIG_MIN * den <= num < SIG_END * den,
        n * den == num * (d * pow2(exp)),
    ensures
        rounded(n, d) == packed(nearest(num, den), exp),
        SIG_MIN <= nearest(num, den) <= SIG_END,
{
    let b = d * pow2(exp);
    lemma_pow2_pos(exp);
    assert(b > 0) by (nonlinear_arith)
        requires
            b == d * pow2(exp),
            d > 0,
            pow2(exp) > 0,
    ;
    assert(SIG_MIN * b <= n < SIG_END * b) by (nonlinear_arith)
        requires
            SIG_MIN * den <= num < SIG_END * den,
            n * den == num * b,
            den > 0,
            b > 0,
    ;
    lemma_rounded_in(n, d, exp);
    lemma_nearest_monotone(n, b, num, den);
    lemma_nearest_monotone(num, den, n, b);
}

/// A non-negative double.
#[derive(Clone, Copy)]
pub struct Double {
    sig: u64,
    exp: u32,
}

impl View for Double {
    type V = Value;

    closed spec fn view(&self) -> Value {
        Value { sig: self.sig as nat, exp: self.exp as nat }
    }
}

/// The integer nearest to `n / d`, ties to even.
fn nearest_quotient(n: u128, d: u128) -> (r: u64)
    requires
        0 < d < 0x1_0000_0000_0000_0000,
        nearest(n as nat, d as nat) <= SIG_END,
    ensures
        r == nearest(n as nat, d as nat),
{
    let q: u128 = n / d;
    let r: u128 = n % d;
    if 2 * r < d || (2 * r == d && q % 2 == 0) {
        q as u64
    } else {
        (q + 1) as u64
    }
}

impl Double {
    #[verifier::type_invariant]
    spec fn well_formed(self) -> bool {
        self@.normal() && self.exp <= 2046
    }

    fn pack(sig: u64, exp: u32) -> (r: Double)
        requires
            SIG_MIN <= sig <= SIG_END,
            exp <= 2045,
        ensures
            r@ == packed(sig as nat, exp as nat),
    {
        if sig == SIG_END {
            Double { sig: SIG_MIN, exp: exp + 1 }
        } else {
            Double { sig, exp }
        }
    }

    /// The double nearest to `n`: the cast of an unsigned integer.
    pub fn from_u64(n: u64) -> (r: Double)
        ensures
            r@ == of_nat(n as nat),
            r@.normal(),
            n == 0 <==> r@.sig == 0,
            n != 0 ==> 1022 <= r@.exp <= 1086,
    {
        if n == 0 {
            return Double { sig: 0, exp: 0 };
        }
        proof {
            lemma_powers();
            lemma_pow2_pos(BIAS as nat);
        }
        if n < SIG_END {
            Self::from_exact(n)
        } else {
            Self::from_wide(n)
        }
    }

    /// An integer below 2^53 is a double itself.
    fn from_exact(n: u64) -> (r: Double)
        requires
            0 < n < SIG_END,
        ensures
            r@ == of_nat(n as nat),
            r@.normal(),
            r@.sig != 0,
            1022 <= r@.exp <= 1074,
            r@.quanta() == n * unit(),
    {
        let mut sig: u64 = n;
        let mut exp: u32 = BIAS;
        proof {
            lemma_powers();
        }
        while sig < SIG_MIN
            invariant
                0 < sig < SIG_END,
                1022 <= exp <= BIAS,
                sig * pow2(exp as nat) == n * unit(),
                pow2((BIAS - exp) as nat) <= sig,
            decreases SIG_END - sig,
        {
            proof {
                lemma_powers();
                if exp == 1022 {
                    assert(pow2(52) <= sig);
                }
                lemma_pow2_unfold(exp as nat);
                lemma_pow2_unfold((BIAS - exp + 1) as nat);
                assert((2 * sig) * pow2((exp - 1) as nat) == sig * pow2(exp as nat))
                    by (nonlinear_arith)
                    requires
                        pow2(exp as nat) == 2 * pow2((exp - 1) as nat),
                ;
            }
            sig = 2 * sig;
            exp = exp - 1;
        }
        proof {
            let num = sig as nat;
            assert((n * unit()) * 1 == num * (1 * pow2(exp as nat))) by (nonlinear_arith)
                requires
                    num * pow2(exp as nat) == n * unit(),
            ;
            lemma_rounded_by((n * unit()) as nat, 1, exp as nat, num, 1);
            lemma_nearest_multiple(num, 1);
        }
        Double { sig, exp }
    }

    /// An integer of 2^53 or more is rounded to a multiple of a power of two.
    fn from_wide(n: u64) -> (r: Double)
        requires
            SIG_END <= n,
        ensures
            r@ == of_nat(n as nat),
            r@.normal(),
            r@.sig != 0,
            1074 <= r@.exp <= 1086,
    {
        let mut den: u128 = 1;
        let mut exp: u32 = BIAS;
        proof {
            lemma_powers();
        }
        while n as u128 >= 0x20_0000_0000_0000 * den
            invariant
                BIAS <= exp <= 1085,
                1 <= den <= 0x800,
                den == pow2((exp - BIAS) as nat),
                0x10_0000_0000_0000 * den <= n,
            decreases 0x1000 - den,
        {
            proof {
                lemma_powers();
                if exp == 1085 {
                    assert(den == 0x800);
                }
                lemma_pow2_unfold((exp - BIAS + 1) as nat);
                lemma_pow2_increases((exp - BIAS + 1) as nat, 11);
            }
            den = 2 * den;
            exp = exp + 1;
        }
        proof {
            lemma_pow2_pos((exp - BIAS) as nat);
            lemma_pow2_adds((exp - BIAS) as nat, BIAS as nat);
            assert((n * unit()) * den == n * (1 * pow2(exp as nat))) by (nonlinear_arith)
                requires
                    pow2(exp as nat) == den * unit(),
            ;
            lemma_rounded_by((n * unit()) as nat, 1, exp as nat, n as nat, den as nat);
        }
        Self::pack(nearest_quotient(n as u128, den), exp)
    }

    /// The double nearest to `self / other`.
    pub fn quotient(self, other: Double) -> (r: Double)
        requires
            other@.sig != 0,
            self@.sig != 0 ==> other@.exp + 53 <= self@.exp + BIAS <= other@.exp + 2045,
        ensures
            r@ == quotient(self@, other@),
            r@.normal(),
            r@.sig == 0 <==> self@.sig == 0,
            self@.sig != 0 ==> self@.exp + BIAS - 53 <= r@.exp + other@.exp <= self@.exp + BIAS - 51,
    {
        proof {
            use_type_invariant(&self);
            use_type_invariant(&other);
        }
        if self.sig == 0 {
            proof {
                assert(0 * pow2(self.exp as nat) == 0);
                assert(0 * unit() == 0);
            }
            return Double { sig: 0, exp: 0 };
        }
        let shift: u32 = if self.sig >= other.sig { 52 } else { 53 };
        let scale: u128 = if self.sig >= other.sig { SIG_MIN as u128 } else { SIG_END as u128 };
        let exp: u32 = self.exp + BIAS - shift - other.exp;
        let num: u128 = self.sig as u128 * scale;
        proof {
            lemma_powers();
            let (a, b) = (self@, other@);
            let (n, d) = (a.quanta() * unit(), b.quanta());
            lemma_pow2_pos(b.exp);
            lemma_pow2_pos(exp as nat);
            assert(d > 0) by (nonlinear_arith)
                requires
                    d == b.sig * pow2(b.exp),
                    b.sig > 0,
                    pow2(b.exp) > 0,
            ;
            lemma_pow2_adds(a.exp, BIAS as nat);
            lemma_pow2_adds(b.exp, exp as nat);
            lemma_pow2_adds((b.exp + exp) as nat, shift as nat);
            assert(pow2(a.exp) * unit() == pow2(b.exp) * pow2(exp as nat) * scale);
            assert(n * b.sig == num * (d * pow2(exp as nat))) by (nonlinear_arith)
                requires
                    n == a.sig * pow2(a.exp) * unit(),
                    d == b.sig * pow2(b.exp),
                    num == a.sig * scale,
                    pow2(a.exp) * unit() == pow2(b.exp) * pow2(exp as nat) * scale,
            ;
            lemma_rounded_by(n, d, exp as nat, num as nat, b.sig);
        }
        Self::pack(nearest_quotient(num, other.sig as u128), exp)
    }

    /// The double nearest to `self * other`.
    pub fn product(self, other: Double) -> (r: Double)
        requires
            self@.sig != 0 && other@.sig != 0 ==> BIAS <= self@.exp + other@.exp + 52
                <= BIAS + 2044,
        ensures
            r@ == product(self@, other@),
            r@.normal(),
            r@.sig == 0 <==> (self@.sig == 0 || other@.sig == 0),
    {
        proof {
            use_type_invariant(&self);
            use_type_invariant(&other);
        }
        if self.sig == 0 || other.sig == 0 {
            proof {
                lemma_mul_by_zero_is_zero(pow2(self.exp as nat) as int);
                lemma_mul_by_zero_is_zero(pow2(other.exp as nat) as int);
                lemma_mul_by_zero_is_zero(self@.quanta() as int);
                lemma_mul_by_zero_is_zero(other@.quanta() as int);
            }
            return Double { sig: 0, exp: 0 };
        }
        proof {
            assert(SIG_MIN * SIG_MIN <= self.sig * other.sig < SIG_END * SIG_END)
                by (nonlinear_arith)
                requires
                    SIG_MIN <= self.sig < SIG_END,
                    SIG_MIN <= other.sig < SIG_END,
            ;
        }
        let num: u128 = self.sig as u128 * other.sig as u128;
        let wide: bool = num >= 0x200_0000_0000_0000_0000_0000_0000;
        let shift: u32 = if wide { 53 } else { 52 };
        let den: u128 = if wide { SIG_END as u128 } else { SIG_MIN as u128 };
        let exp: u32 = self.exp + other.exp + shift - BIAS;
        proof {
            lemma_powers();
            let (a, b) = (self@, other@);
            let n = a.quanta() * b.quanta();
            lemma_pow2_adds(a.exp, b.exp);
            lemma_pow2_adds((a.exp + b.exp) as nat, shift as nat);
            lemma_pow2_adds(BIAS as nat, exp as nat);
            assert(pow2(a.exp) * pow2(b.exp) * den == unit() * pow2(exp as nat));
            assert(n * den == num * (unit() * pow2(exp as nat))) by (nonlinear_arith)
                requires
                    n == (a.sig * pow2(a.exp)) * (b.sig * pow2(b.exp)),
                    num == a.sig * b.sig,
                    pow2(a.exp) * pow2(b.exp) * den == unit() * pow2(exp as nat),
            ;
            lemma_rounded_by(n, unit(), exp as nat, num as nat, den as nat);
        }
        Self::pack(nearest_quotient(num, den), exp)
    }

    /// The whole part of `self`: the cast to an unsigned integer, which stops at its largest.
    pub fn truncate(self) -> (r: u64)
        ensures
            self@.floor() <= u64::MAX ==> r == self@.floor(),
            self@.floor() > u64::MAX ==> r == u64::MAX,
    {
        proof {
            use_type_invariant(&self);
            lemma_powers();
            lemma2_to64();
        }
        let ghost v = self@;
        if self.exp >= BIAS {
            let shift: u32 = self.exp - BIAS;
            proof {
                lemma_pow2_adds(shift as nat, BIAS as nat);
                lemma_pow2_pos(shift as nat);
                assert(v.quanta() == (v.sig * pow2(shift as nat)) * unit()) by (nonlinear_arith)
                    requires
                        v.quanta() == v.sig * pow2(v.exp),
                        pow2(v.exp) == pow2(shift as nat) * unit(),
                ;
                lemma_div_by_multiple((v.sig * pow2(shift as nat)) as int, unit() as int);
                if shift > 11 {
                    lemma_pow2_increases(12, shift as nat);
                    assert(v.sig * pow2(shift as nat) >= SIG_MIN * 0x1000) by (nonlinear_arith)
                        requires
                            v.sig >= SIG_MIN,
                            pow2(shift as nat) >= 0x1000,
                    ;
                } else {
                    lemma_pow2_increases(shift as nat, 11);
                    assert(v.sig * pow2(shift as nat) <= (SIG_END - 1) * 0x800)
                        by (nonlinear_arith)
                        requires
                            v.sig <= SIG_END - 1,
                            pow2(shift as nat) <= 0x800,
                    ;
                }
            }
            if shift > 11 {
                u64::MAX
            } else {
                self.sig * power(shift)
            }
        } else {
            let shift: u32 = BIAS - self.exp;
            proof {
                lemma_pow2_adds(self.exp as nat, shift as nat);
                lemma_pow2_pos(self.exp as nat);
                lemma_pow2_pos(shift as nat);
                lemma_div_denominator(
                    v.quanta() as int,
                    pow2(v.exp) as int,
                    pow2(shift as nat) as int,
                );
                lemma_div_by_multiple(v.sig as int, pow2(v.exp) as int);
                if shift > 52 {
                    lemma_pow2_increases(53, shift as nat);
                    lemma_basic_div(v.sig as int, pow2(shift as nat) as int);
                }
            }
            if shift > 52 {
                0
            } else {
                self.sig / power(shift)
            }
        }
    }
}

/// A power of two that a significand can be scaled by.
fn power(e: u32) -> (r: u64)
    requires
        e <= 52,
    ensures
        r == pow2(e as nat),
{
    let mut r: u64 = 1;
    let mut i: u32 = 0;
    proof {
        lemma_powers();
    }
    while i < e
        invariant
            i <= e <= 52,
            r == pow2(i as nat),
        decreases e - i,
    {
        proof {
            lemma_powers();
            lemma_pow2_unfold((i + 1) as nat);
            lemma_pow2_increases((i + 1) as nat, 52);
        }
        r = 2 * r;
        i = i + 1;
    }
    r
}

/// Rounding keeps order: of two ratios, the larger never rounds below the smaller.
pub proof fn rounding_keeps_order(n1: nat, d1: nat, n2: nat, d2: nat)
    requires
        d1 > 0,
        d2 > 0,
        n1 == 0 || SIG_MIN * d1 <= n1,
        n1 * d2 <= n2 * d1,
    ensures
        rounded(n1, d1).quanta() <= rounded(n2, d2).quanta(),
{
    lemma_mul_by_zero_is_zero(pow2(0) as int);
    if n1 > 0 {
        lemma_powers();
        assert(SIG_MIN * d2 <= n2) by (nonlinear_arith)
            requires
                SIG_MIN * d1 <= n1,
                n1 * d2 <= n2 * d1,
                d1 > 0,
                d2 > 0,
        ;
        let e1 = lemma_binade_exists(n1, d1, 0);
        let e2 = lemma_binade_exists(n2, d2, 0);
        lemma_rounded_in(n1, d1, e1);
        lemma_rounded_in(n2, d2, e2);
        let (p1, p2) = (pow2(e1), pow2(e2));
        lemma_pow2_pos(e1);
        lemma_pow2_pos(e2);
        let (m1, m2) = (nearest(n1, d1 * p1), nearest(n2, d2 * p2));
        if e1 < e2 {
            lemma_binade_order(n1, d1, e1, n2, d2, e2);
            lemma_mul_inequality(m1 as int, SIG_END as int, p1 as int);
            lemma_mul_inequality(SIG_MIN as int, m2 as int, p2 as int);
        } else if e2 < e1 {
            lemma_binade_order(n2, d2, e2, n1, d1, e1);
        } else {
            assert(n1 * (d2 * p1) <= n2 * (d1 * p1)) by (nonlinear_arith)
                requires
                    n1 * d2 <= n2 * d1,
            ;
            lemma_mul_strictly_positive(d1 as int, p1 as int);
            lemma_mul_strictly_positive(d2 as int, p1 as int);
            lemma_nearest_monotone(n1, d1 * p1, n2, d2 * p1);
            lemma_mul_inequality(m1 as int, m2 as int, p1 as int);
        }
    }
}

/// A double is its own nearest double: an exact result is not rounded.
pub proof fn rounding_keeps_doubles(v: Value, d: nat)
    requires
        v.normal(),
        d > 0,
    ensures
        rounded(v.quanta() * d, d) == v,
{
    lemma_powers();
    lemma_pow2_pos(v.exp);
    let n = v.quanta() * d;
    let b = d * pow2(v.exp);
    if v.sig == 0 {
        lemma_mul_by_zero_is_zero(pow2(v.exp) as int);
        lemma_mul_by_zero_is_zero(d as int);
    } else {
        assert(n * 1 == v.sig * b) by (nonlinear_arith)
            requires
                n == v.sig * pow2(v.exp) * d,
                b == d * pow2(v.exp),
        ;
        lemma_rounded_by(n, d, v.exp, v.sig, 1);
        lemma_nearest_multiple(v.sig, 1);
    }
}

/// The double one.
pub open spec fn one() -> Value {
    Value { sig: SIG_MIN as nat, exp: 1022 }
}

/// One is a normal double of `unit()` quanta, and a unit holds many quanta.
pub proof fn one_is_unit()
    ensures
        one().quanta() == unit(),
        unit() >= 0x1_0000_0000_0000_0000 * 0x1_0000_0000_0000_0000,
{
    lemma_powers();
    lemma2_to64();
    lemma_pow2_adds(52, 1022);
    lemma_pow2_adds(64, 64);
    lemma_pow2_increases(128, BIAS as nat);
}

/// A ratio of normal size rounds to a double with a full significand.
pub proof fn rounding_is_normal(n: nat, d: nat)
    requires
        d > 0,
        SIG_MIN * d <= n,
    ensures
        rounded(n, d).normal(),
        rounded(n, d).sig >= SIG_MIN,
        rounded(n, d).quanta() >= SIG_MIN,
{
    lemma_powers();
    let e = lemma_binade_exists(n, d, 0);
    lemma_rounded_in(n, d, e);
    let v = rounded(n, d);
    lemma_pow2_pos(v.exp);
    assert(v.sig * pow2(v.exp) >= SIG_MIN) by (nonlinear_arith)
        requires
            v.sig >= SIG_MIN,
            pow2(v.exp) >= 1,
    ;
}

/// Casting to a double keeps order, and keeps a positive integer at one or more.
pub proof fn of_nat_keeps_order(m: nat, n: nat)
    requires
        m <= n,
    ensures
        of_nat(m).quanta() <= of_nat(n).quanta(),
        of_nat(m).normal(),
        m > 0 ==> of_nat(m).sig >= SIG_MIN && of_nat(m).quanta() >= unit(),
{
    one_is_unit();
    lemma_mul_inequality(m as int, n as int, unit() as int);
    if m > 0 {
        lemma_mul_inequality(1, m as int, unit() as int);
        rounding_is_normal(m * unit(), 1);
        rounding_keeps_order(unit(), 1, m * unit(), 1);
        rounding_keeps_doubles(one(), 1);
        rounding_keeps_order(m * unit(), 1, n * unit(), 1);
    } else {
        lemma_mul_by_zero_is_zero(unit() as int);
        lemma_mul_by_zero_is_zero(pow2(0) as int);
    }
}

/// An integer below 2^53 is a double.
pub proof fn of_nat_exact(n: nat)
    requires
        n < SIG_END,
    ensures
        of_nat(n).quanta() == n * unit(),
{
    one_is_unit();
    lemma_powers();
    if n == 0 {
        lemma_mul_by_zero_is_zero(unit() as int);
        lemma_mul_by_zero_is_zero(pow2(0) as int);
    } else {
        let p = n * unit();
        lemma_mul_inequality(1, n as int, unit() as int);
        let e = lemma_binade_exists(p, 1, 0);
        lemma_rounded_in(p, 1, e);
        if e > BIAS {
            lemma_double_power(BIAS as nat, e);
            lemma_mul_strict_inequality(n as int, SIG_END as int, unit() as int);
        }
        let k = pow2((BIAS - e) as nat);
        lemma_pow2_adds((BIAS - e) as nat, e);
        lemma_pow2_pos(e);
        assert(p == (n * k) * pow2(e)) by (nonlinear_arith)
            requires
                p == n * unit(),
                unit() == k * pow2(e),
        ;
        lemma_nearest_multiple(n * k, pow2(e));
    }
}

/// The quotient of doubles grows with the dividend.
pub proof fn quotient_keeps_order(a: Value, b: Value, c: Value)
    requires
        b.quanta() > 0,
        a.quanta() == 0 || SIG_MIN * b.quanta() <= a.quanta() * unit(),
        a.quanta() <= c.quanta(),
    ensures
        quotient(a, b).quanta() <= quotient(c, b).quanta(),
{
    let (n, m, d) = (a.quanta() * unit(), c.quanta() * unit(), b.quanta());
    lemma_mul_inequality(a.quanta() as int, c.quanta() as int, unit() as int);
    lemma_mul_inequality(n as int, m as int, d as int);
    lemma_mul_by_zero_is_zero(unit() as int);
    rounding_keeps_order(n, d, m, d);
}

/// A double divided by itself is one.
pub proof fn quotient_of_equals(a: Value)
    requires
        a.quanta() > 0,
    ensures
        quotient(a, a) == one(),
{
    one_is_unit();
    lemma_mul_is_commutative(a.quanta() as int, unit() as int);
    rounding_keeps_doubles(one(), a.quanta());
}

/// The product of doubles grows with its factor.
pub proof fn product_keeps_order(a: Value, f: Value, g: Value)
    requires
        a.quanta() * f.quanta() == 0 || SIG_MIN * unit() <= a.quanta() * f.quanta(),
        f.quanta() <= g.quanta(),
    ensures
        product(a, f).quanta() <= product(a, g).quanta(),
{
    one_is_unit();
    let (n, m, d) = (a.quanta() * f.quanta(), a.quanta() * g.quanta(), unit());
    lemma_mul_inequality(f.quanta() as int, g.quanta() as int, a.quanta() as int);
    lemma_mul_is_commutative(f.quanta() as int, a.quanta() as int);
    lemma_mul_is_commutative(g.quanta() as int, a.quanta() as int);
    lemma_mul_inequality(n as int, m as int, d as int);
    rounding_keeps_order(n, d, m, d);
}

/// A double times one is itself.
pub proof fn product_with_one(a: Value)
    requires
        a.normal(),
    ensures
        product(a, one()) == a,
{
    one_is_unit();
    rounding_keeps_doubles(a, unit());
}

/// The whole part keeps order.
pub proof fn floor_keeps_order(a: Value, b: Value)
    requires
        a.quanta() <= b.quanta(),
    ensures
        a.floor() <= b.floor(),
{
    one_is_unit();
    lemma_div_is_ordered(a.quanta() as int, b.quanta() as int, unit() as int);
}

/// The whole part of a double, compared with an integer.
pub proof fn floor_bounds(a: Value, n: nat)
    ensures
        a.quanta() < (n + 1) * unit() ==> a.floor() <= n,
        n * unit() <= a.quanta() ==> n <= a.floor(),
{
    one_is_unit();
    let (q, u) = (a.quanta(), unit());
    lemma_fundamental_div_mod(q as int, u as int);
    lemma_mod_bound(q as int, u as int);
    let f = q / u;
    if q < (n + 1) * u && f > n {
        lemma_mul_inequality((n + 1) as int, f as int, u as int);
        lemma_mul_is_commutative(f as int, u as int);
    }
    if n * u <= q && f < n {
        lemma_mul_inequality((f + 1) as int, n as int, u as int);
        lemma_mul_is_distributive_add_other_way(u as int, f as int, 1);
        lemma_mul_is_commutative(f as int, u as int);
    }
}

/// Rounding moves a ratio by at most one part in 2^53.
pub proof fn rounding_error_bound(n: nat, d: nat)
    requires
        d > 0,
        SIG_MIN * d <= n,
    ensures
        SIG_END * (rounded(n, d).quanta() * d) <= SIG_END * n + n,
        SIG_END * n <= SIG_END * (rounded(n, d).quanta() * d) + n,
{
    lemma_powers();
    let e = lemma_binade_exists(n, d, 0);
    lemma_rounded_in(n, d, e);
    let (p, q) = (pow2(e), rounded(n, d).quanta());
    let m = nearest(n, d * p);
    lemma_pow2_pos(e);
    lemma_mul_strictly_positive(d as int, p as int);
    lemma_nearest_bounds(n, d * p);
    assert(2 * m * (d * p) == 2 * (q * d)) by (nonlinear_arith)
        requires
            q == m * p,
    ;
    assert(SIG_END * (q * d) == SIG_MIN * (2 * (q * d)));
}

/// Half of a double is a double, unless it is among the smallest.
pub proof fn half_is_a_double(v: Value)
    requires
        v.normal(),
        v.exp > 0,
    ensures
        (Value { sig: v.sig, exp: (v.exp - 1) as nat }).normal(),
        2 * (Value { sig: v.sig, exp: (v.exp - 1) as nat }).quanta() == v.quanta(),
{
    lemma_pow2_unfold(v.exp);
    let p = pow2((v.exp - 1) as nat);
    assert(2 * (v.sig * p) == v.sig * (2 * p)) by (nonlinear_arith);
}

/// A factor's order of arguments does not matter.
pub proof fn product_commutes(a: Value, b: Value)
    ensures
        product(a, b) == product(b, a),
{
    lemma_mul_is_commutative(a.quanta() as int, b.quanta() as int);
}

/// What rounding leaves of a product, a quotient and a cast.
proof fn lemma_rounded_share(e: int, a: int, f: int, p: int, whole: int, n: int, d: int, u: int)
    requires
        1 < e,
        0 <= a,
        0 <= f,
        0 <= p,
        0 < whole,
        0 <= n,
        0 < d,
        0 < u,
        e * a <= (e + 1) * (whole * u),
        (e - 1) * (whole * u) <= e * a,
        e * (d * f) <= (e + 1) * (n * u),
        (e - 1) * (n * u) <= e * (d * f),
        e * (p * u) <= (e + 1) * (a * f),
        (e - 1) * (a * f) <= e * (p * u),
    ensures
        d * (e * e * e) * p <= ((e + 1) * (e + 1) * (e + 1)) * (whole * n * u),
        ((e - 1) * (e - 1) * (e - 1)) * (whole * n * u) <= d * (e * e * e) * p,
{
    let (x, y) = (whole * u, n * u);
    let (hi, lo) = (e + 1, e - 1);
    lemma_mul_nonnegative(whole, u);
    lemma_mul_nonnegative(n, u);
    lemma_mul_nonnegative(e, a);
    lemma_mul_nonnegative(d, f);
    lemma_mul_nonnegative(e, d * f);
    lemma_mul_nonnegative(lo, x);
    lemma_mul_nonnegative(lo, y);
    lemma_mul_upper_bound(e * a, hi * x, e * (d * f), hi * y);
    lemma_mul_upper_bound(lo * x, e * a, lo * y, e * (d * f));
    let af = a * f;
    let k = d * (e * e);
    assert((e * a) * (e * (d * f)) == k * af) by (nonlinear_arith)
        requires
            af == a * f,
            k == d * (e * e),
    ;
    assert((hi * x) * (hi * y) == (hi * hi) * (x * y)) by (nonlinear_arith);
    assert((lo * x) * (lo * y) == (lo * lo) * (x * y)) by (nonlinear_arith);
    assert(0 < k) by (nonlinear_arith)
        requires
            k == d * (e * e),
            0 < d,
            0 < e,
    ;
    lemma_mul_inequality(e * (p * u), hi * af, k);
    lemma_mul_inequality(lo * af, e * (p * u), k);
    lemma_mul_inequality(k * af, (hi * hi) * (x * y), hi);
    lemma_mul_inequality((lo * lo) * (x * y), k * af, lo);
    let (mine, most, least) = (
        d * (e * e * e) * p,
        (hi * hi * hi) * (whole * n * u),
        (lo * lo * lo) * (whole * n * u),
    );
    assert((e * (p * u)) * k == mine * u) by (nonlinear_arith)
        requires
            k == d * (e * e),
            mine == d * (e * e * e) * p,
    ;
    assert((hi * af) * k == (k * af) * hi && (lo * af) * k == (k * af) * lo) by (nonlinear_arith);
    assert(((hi * hi) * (x * y)) * hi == most * u) by (nonlinear_arith)
        requires
            x == whole * u,
            y == n * u,
            most == (hi * hi * hi) * (whole * n * u),
    ;
    assert(((lo * lo) * (x * y)) * lo == least * u) by (nonlinear_arith)
        requires
            x == whole * u,
            y == n * u,
            least == (lo * lo * lo) * (whole * n * u),
    ;
    lemma_mul_inequality_converse(mine, most, u);
    lemma_mul_inequality_converse(least, mine, u);
}

/// A number times a quotient of two small numbers, each step rounded, misses the exact share by
/// three roundings at most.
pub proof fn share_error_bound(whole: nat, n: nat, d: nat)
    requires
        0 < whole,
        0 < n < SIG_END,
        0 < d < SIG_END,
    ensures
        ({
            let (e, u) = (SIG_END as int, unit() as int);
            let p = product(of_nat(whole), quotient(of_nat(n), of_nat(d))).quanta() as int;
            &&& d * (e * e * e) * p <= ((e + 1) * (e + 1) * (e + 1)) * (whole * n * u)
            &&& ((e - 1) * (e - 1) * (e - 1)) * (whole * n * u) <= d * (e * e * e) * p
        }),
{
    let u = unit();
    let fraction = quotient(of_nat(n), of_nat(d));
    let (a, f) = (of_nat(whole).quanta(), fraction.quanta());
    let p = product(of_nat(whole), fraction).quanta();
    let (l, w) = (of_nat(n).quanta(), of_nat(d).quanta());
    let e = SIG_END as int;
    one_is_unit();
    of_nat_exact(n);
    of_nat_exact(d);
    of_nat_keeps_order(whole, whole);
    assert(SIG_MIN * 1 <= whole * u && SIG_MIN * w <= l * u && 0 < w) by (nonlinear_arith)
        requires
            whole >= 1,
            n >= 1,
            0 < d < SIG_END,
            l == n * u,
            w == d * u,
            u >= 0x1_0000_0000_0000_0000 * 0x1_0000_0000_0000_0000,
    ;
    rounding_is_normal(l * u, w);
    assert(SIG_MIN * u <= a * f) by (nonlinear_arith)
        requires
            a >= u,
            f >= SIG_MIN,
    ;
    rounding_error_bound(whole * u, 1);
    rounding_error_bound(l * u, w);
    rounding_error_bound(a * f, u);
    let (x, y, z) = (whole * u, l * u, a * f);
    assert(e * a <= (e + 1) * x && (e - 1) * x <= e * a) by (nonlinear_arith)
        requires
            e * (a * 1) <= e * x + x,
            e * x <= e * (a * 1) + x,
    ;
    assert(e * (p * u) <= (e + 1) * z && (e - 1) * z <= e * (p * u)) by (nonlinear_arith)
        requires
            e * (p * u) <= e * z + z,
            e * z <= e * (p * u) + z,
    ;
    let (g, t) = (d * f, n * u);
    assert(f * w == g * u && y == t * u) by (nonlinear_arith)
        requires
            w == d * u,
            g == d * f,
            l == n * u,
            t == n * u,
            y == l * u,
    ;
    assert((e * g) * u <= ((e + 1) * t) * u && ((e - 1) * t) * u <= (e * g) * u)
        by (nonlinear_arith)
        requires
            e * (g * u) <= e * (t * u) + t * u,
            e * (t * u) <= e * (g * u) + t * u,
    ;
    lemma_mul_inequality_converse(e * g, (e + 1) * t, u as int);
    lemma_mul_inequality_converse((e - 1) * t, e * g, u as int);
    lemma_rounded_share(
        e,
        a as int,
        f as int,
        p as int,
        whole as int,
        n as int,
        d as int,
        u as int,
    );
}

/// No integer is nearer to a ratio than the one that it is rounded to, and of two that are equally
/// near the even one is taken.
pub proof fn the_nearest_integer_is_taken(n: nat, d: nat, m: nat)
    requires
        d > 0,
    ensures
        ({
            let taken = n - nearest(n, d) * d;
            let other = n - m * d;
            let a = if taken < 0 {
                -taken
            } else {
                taken
            };
            let b = if other < 0 {
                -other
            } else {
                other
            };
            &&& a <= b
            &&& a == b && m != nearest(n, d) ==> nearest(n, d) % 2 == 0
        }),
{
    let q = n / d;
    let r = n % d;
    let t = nearest(n, d);
    lemma_fundamental_div_mod(n as int, d as int);
    lemma_mod_bound(n as int, d as int);
    lemma_mul_is_commutative(q as int, d as int);
    lemma_mul_is_distributive_add_other_way(d as int, q as int, 1);
    assert(q * d == n - r);
    assert((q + 1) * d == n - r + d);
    if m <= q {
        lemma_mul_inequality(m as int, q as int, d as int);
        if m < q {
            lemma_mul_inequality(m + 1int, q as int, d as int);
            lemma_mul_is_distributive_add_other_way(d as int, m as int, 1);
        }
    } else {
        lemma_mul_inequality(q + 1int, m as int, d as int);
        if m > q + 1 {
            lemma_mul_inequality(q + 2int, m as int, d as int);
            lemma_mul_is_distributive_add_other_way(d as int, q as int, 2);
        }
    }
}

/// No double of the binade is nearer to a ratio than the one that it is rounded to.
pub proof fn the_nearest_double_is_taken(n: nat, d: nat, exp: nat, sig: nat)
    requires
        d > 0,
        in_binade(n, d, exp),
    ensures
        ({
            let taken = n - rounded(n, d).quanta() * d;
            let other = n - (Value { sig, exp }).quanta() * d;
            let a = if taken < 0 {
                -taken
            } else {
                taken
            };
            let b = if other < 0 {
                -other
            } else {
                other
            };
            a <= b
        }),
{
    let p = pow2(exp);
    lemma_pow2_pos(exp);
    lemma_mul_strictly_positive(d as int, p as int);
    lemma_rounded_in(n, d, exp);
    the_nearest_integer_is_taken(n, d * p, sig);
    let t = nearest(n, d * p);
    assert(t * (d * p) == (t * p) * d) by (nonlinear_arith);
    assert(sig * (d * p) == (sig * p) * d) by (nonlinear_arith);
}

/// A double lies in the binade of its exponent, where its significand counts quanta.
pub proof fn doubles_lie_in_their_binade(v: Value, d: nat)
    requires
        d > 0,
        SIG_MIN <= v.sig < SIG_END,
    ensures
        in_binade(v.quanta() * d, d, v.exp),
        v.quanta() == v.sig * pow2(v.exp),
{
    let (s, p) = (v.sig, pow2(v.exp));
    lemma_pow2_pos(v.exp);
    lemma_mul_strictly_positive(d as int, p as int);
    assert((s * p) * d == s * (d * p)) by (nonlinear_arith);
    lemma_mul_inequality(SIG_MIN as int, s as int, (d * p) as int);
    lemma_mul_strict_inequality(s as int, SIG_END as int, (d * p) as int);
}

} // verus!
