//! Arithmetic on IEEE 754 doubles, carried out on whole numbers.
//!
//! A double is a significand of at most 53 bits times a power of two. What a
//! double operation yields is the exact result rounded to such a number, to the
//! nearest one, and to the one with the even significand where two are equally
//! near.

use vstd::arithmetic::power2;
use vstd::prelude::*;

verus! {

/// The first whole number that takes more than 53 bits.
pub const LIMIT: u64 = 0x20_0000_0000_0000;

/// The whole number nearest to `num / den`; the even one of two.
pub open spec fn half_even(num: nat, den: nat) -> nat {
    let q = num / den;
    let r = num % den;
    if 2 * r < den || (2 * r == den && q % 2 == 0) {
        q
    } else {
        q + 1
    }
}

/// The whole number nearest to `num / den`; the larger one of two.
pub open spec fn half_up(num: nat, den: nat) -> nat {
    if 2 * (num % den) < den {
        num / den
    } else {
        num / den + 1
    }
}

/// By how many bits `n` is longer than a significand.
pub open spec fn excess(n: nat) -> nat
    decreases n,
{
    if n < LIMIT {
        0
    } else {
        1 + excess(n / 2)
    }
}

/// The double nearest to the whole number `n`.
pub open spec fn nearest(n: nat) -> nat {
    let unit = power2::pow2(excess(n));
    half_even(n, unit) * unit
}

/// How often `x` is doubled until its thousandth takes 53 bits.
pub open spec fn lift(x: nat) -> nat
    decreases 1000 * LIMIT - x,
{
    if x == 0 || x >= 500 * LIMIT {
        0
    } else {
        1 + lift(2 * x)
    }
}

/// The double `x` over a thousand is a double again; this is that double in
/// thousandths, rounded to a whole number of them.
///
/// The quotient is `m / d`, with a significand `m` of 53 bits, except that a
/// quotient from 2^53 on is `2 * m`.
pub open spec fn thousandths(x: nat) -> nat {
    if x >= 1000 * LIMIT {
        half_even(x, 2000) * 2000
    } else {
        let d = power2::pow2(lift(x));
        let m = half_even(x * d, 1000);
        half_even(m * 1000, d)
    }
}

/// `half_even`, computed.
pub(crate) fn divide_half_even(num: u64, den: u64) -> (r: u64)
    requires
        0 < den,
        den > 1 || num < u64::MAX,
    ensures
        r == half_even(num as nat, den as nat),
{
    let q: u64 = num / den;
    let rest: u64 = num % den;
    assert(q <= num && (den > 1 ==> q <= u64::MAX / 2)) by (nonlinear_arith)
        requires
            q == num / den,
            0 < den,
            num <= u64::MAX,
    ;
    assert(rest < den);
    if rest < den - rest || (rest == den - rest && q % 2 == 0) {
        q
    } else {
        q + 1
    }
}

/// A quotient at most `bound` rounds to at most `bound`.
pub(crate) proof fn lemma_half_even_bound(num: nat, den: nat, bound: nat)
    requires
        0 < den,
        num <= bound * den,
    ensures
        half_even(num, den) <= bound,
{
    let q = num / den;
    let r = num % den;
    assert(num == q * den + r && r < den) by (nonlinear_arith)
        requires
            0 < den,
            q == num / den,
            r == num % den,
    ;
    assert(q <= bound && (q == bound ==> r == 0)) by (nonlinear_arith)
        requires
            num == q * den + r,
            num <= bound * den,
            0 <= r < den,
    ;
}

/// A multiple of the divisor is divided without rounding.
pub(crate) proof fn lemma_half_even_exact(n: nat, den: nat)
    requires
        0 < den,
    ensures
        half_even(n * den, den) == n,
{
    assert((n * den) / den == n && (n * den) % den == 0) by (nonlinear_arith)
        requires
            0 < den,
    ;
}

/// A rounded quotient is at most half a divisor away from the exact one.
pub(crate) proof fn lemma_half_even_near(num: nat, den: nat)
    requires
        0 < den,
    ensures
        2 * (half_even(num, den) * den - num) <= den,
        2 * (num - half_even(num, den) * den) <= den,
{
    let q = num / den;
    let r = num % den;
    assert(num == q * den + r && r < den) by (nonlinear_arith)
        requires
            0 < den,
            q == num / den,
            r == num % den,
    ;
    assert((q + 1) * den == q * den + den) by (nonlinear_arith);
}

/// A quotient that is less than half a unit away from `n` rounds to `n`.
pub(crate) proof fn lemma_half_even_unique(num: nat, den: nat, n: nat)
    requires
        0 < den,
        2 * (n * den - num) < den,
        2 * (num - n * den) < den,
    ensures
        half_even(num, den) == n,
{
    let q = num / den;
    let r = num % den;
    assert(num == q * den + r && r < den) by (nonlinear_arith)
        requires
            0 < den,
            q == num / den,
            r == num % den,
    ;
    assert(n == q && 2 * r < den || n == q + 1 && 2 * r > den) by (nonlinear_arith)
        requires
            num == q * den + r,
            0 <= r < den,
            2 * (n * den - num) < den,
            2 * (num - n * den) < den,
    ;
}

/// `pow2`, computed.
pub(crate) fn power(e: u32) -> (r: u64)
    requires
        e <= 63,
    ensures
        r == power2::pow2(e as nat),
        0 < r <= 0x8000_0000_0000_0000,
{
    let mut r: u64 = 1;
    let mut i: u32 = 0;
    proof {
        power2::lemma2_to64();
        power2::lemma2_to64_rest();
    }
    while i < e
        invariant
            i <= e <= 63,
            r == power2::pow2(i as nat),
            0 < r,
            power2::pow2(63) == 0x8000_0000_0000_0000,
        decreases e - i,
    {
        proof {
            power2::lemma_pow2_unfold((i + 1) as nat);
            lemma_power_grows((i + 1) as nat, 63);
        }
        r = r * 2;
        i = i + 1;
    }
    proof {
        lemma_power_grows(e as nat, 63);
    }
    r
}

/// Powers of two grow with the exponent.
pub(crate) proof fn lemma_power_grows(a: nat, b: nat)
    requires
        a <= b,
    ensures
        0 < power2::pow2(a) <= power2::pow2(b),
{
    power2::lemma_pow2_pos(a);
    if a < b {
        power2::lemma_pow2_strictly_increases(a, b);
    }
}

/// `nearest`, computed.
pub(crate) fn nearest_double(n: u64) -> (r: u64)
    requires
        n <= 0x8000_0000_0000_0000,
    ensures
        r == nearest(n as nat),
        r <= 0x8000_0000_0000_0000,
{
    let mut unit: u64 = 1;
    let mut q: u64 = n;
    let ghost mut k: nat = 0;
    proof {
        power2::lemma2_to64();
        power2::lemma2_to64_rest();
    }
    while q >= LIMIT
        invariant
            n <= 0x8000_0000_0000_0000,
            0 < unit,
            unit == power2::pow2(k),
            q == n / unit,
            q * unit <= n,
            excess(n as nat) == k + excess(q as nat),
            k <= 11,
            power2::pow2(11) == 0x800,
        decreases q,
    {
        assert(unit <= 0x400) by (nonlinear_arith)
            requires
                q * unit <= n,
                n <= 0x8000_0000_0000_0000,
                q >= 0x20_0000_0000_0000,
        ;
        proof {
            power2::lemma_pow2_unfold(k + 1);
            if k >= 11 {
                lemma_power_grows(11, k);
            }
            vstd::arithmetic::div_mod::lemma_div_denominator(n as int, unit as int, 2);
        }
        let half: u64 = q / 2;
        assert(half * (unit * 2) <= n) by (nonlinear_arith)
            requires
                q * unit <= n,
                half == q / 2,
        ;
        unit = unit * 2;
        q = half;
        proof {
            k = k + 1;
        }
    }
    proof {
        assert(excess(q as nat) == 0);
        lemma_power_grows(k, 63);
        power2::lemma_pow2_adds((63 - k) as nat, k);
        lemma_half_even_bound(n as nat, unit as nat, power2::pow2((63 - k) as nat));
        let rounded = half_even(n as nat, unit as nat);
        assert(rounded * unit <= power2::pow2((63 - k) as nat) * unit) by (nonlinear_arith)
            requires
                rounded <= power2::pow2((63 - k) as nat),
        ;
    }
    divide_half_even(n, unit) * unit
}

/// `thousandths`, computed.
pub(crate) fn divide_to_thousandths(x: u64) -> (r: u64)
    requires
        x <= 0x8000_0000_0000_0000,
    ensures
        r == thousandths(x as nat),
{
    if x >= 1000 * LIMIT {
        proof {
            lemma_half_even_bound(x as nat, 2000, 0x8000_0000_0000_0000nat / 2000 + 1);
        }
        return divide_half_even(x, 2000) * 2000;
    }
    let mut d: u64 = 1;
    let mut lifted: u64 = x;
    let ghost mut k: nat = 0;
    proof {
        power2::lemma2_to64();
    }
    while lifted != 0 && lifted < 500 * LIMIT
        invariant
            x < 1000 * LIMIT,
            lifted < 1000 * LIMIT,
            lifted == x * d,
            x > 0 ==> d <= lifted,
            d == power2::pow2(k),
            0 < d,
            x == 0 ==> d == 1,
            lift(x as nat) == k + lift(lifted as nat),
        decreases 1000 * LIMIT - lifted,
    {
        proof {
            power2::lemma_pow2_unfold(k + 1);
            assert(x * (d * 2) == lifted * 2) by (nonlinear_arith)
                requires
                    lifted == x * d,
            ;
            assert(x > 0);
        }
        lifted = lifted * 2;
        d = d * 2;
        proof {
            k = k + 1;
        }
    }
    proof {
        lemma_half_even_bound(lifted as nat, 1000, LIMIT as nat);
    }
    let m: u64 = divide_half_even(lifted, 1000);
    divide_half_even(m * 1000, d)
}

/// A whole number of milliseconds below 2^43 seconds is not changed by the
/// division and the rounding.
pub(crate) proof fn lemma_thousandths_exact(x: nat)
    requires
        x < LIMIT / 1024 * 1000,
    ensures
        thousandths(x) == x,
{
    let t = lift(x);
    let d = power2::pow2(t);
    power2::lemma2_to64();
    if x == 0 {
        lemma_half_even_exact(0, 1000);
        lemma_half_even_exact(0, d);
    } else {
        lemma_lift(x);
        if t < 10 {
            lemma_power_grows(t, 9);
            assert(x * d < 500 * LIMIT) by (nonlinear_arith)
                requires
                    x < LIMIT / 1024 * 1000,
                    d <= 512,
            ;
            assert(false);
        }
        lemma_power_grows(10, t);
        let m = half_even(x * d, 1000);
        lemma_half_even_near(x * d, 1000);
        lemma_half_even_unique(m * 1000, d, x);
    }
}

/// Where `lift` stops, 53 bits are reached.
pub(crate) proof fn lemma_lift(x: nat)
    requires
        0 < x,
    ensures
        x * power2::pow2(lift(x)) >= 500 * LIMIT,
    decreases 1000 * LIMIT - x,
{
    if x >= 500 * LIMIT {
        power2::lemma2_to64();
        assert(x * 1 == x);
    } else {
        lemma_lift(2 * x);
        power2::lemma_pow2_unfold(lift(x));
        let p = power2::pow2(lift(2 * x));
        assert(power2::pow2(lift(x)) == 2 * p);
        assert(x * (2 * p) == (2 * x) * p) by (nonlinear_arith);
    }
}

/// A double, by its bits: one for the sign, eleven for the exponent, and 52
/// for the fraction.
#[derive(Clone, Copy, Debug, PartialEq, Eq, Structural)]
pub struct Double {
    pub bits: u64,
}

impl Double {
    pub open spec fn negative(self) -> bool {
        self.bits >= 0x8000_0000_0000_0000
    }

    pub open spec fn biased_exponent(self) -> nat {
        (self.bits as nat / 0x10_0000_0000_0000) % 0x800
    }

    pub open spec fn fraction(self) -> nat {
        self.bits as nat % 0x10_0000_0000_0000
    }

    /// Neither an infinity nor a NaN.
    pub open spec fn finite(self) -> bool {
        self.biased_exponent() != 0x7ff
    }

    pub open spec fn nan(self) -> bool {
        self.biased_exponent() == 0x7ff && self.fraction() != 0
    }

    /// A finite double is `significand * 2^exponent`, up to its sign.
    pub open spec fn significand(self) -> nat {
        if self.biased_exponent() == 0 {
            self.fraction()
        } else {
            self.fraction() + 0x10_0000_0000_0000
        }
    }

    pub open spec fn exponent(self) -> int {
        if self.biased_exponent() == 0 {
            -1074
        } else {
            self.biased_exponent() - 1075
        }
    }

    /// The size of a finite double times a thousand, which is a double again,
    /// rounded to a whole number, half a unit away from zero.
    pub open spec fn thousandfold(self) -> nat {
        let product = nearest(self.significand() * 1000);
        if self.exponent() >= 0 {
            product * power2::pow2(self.exponent() as nat)
        } else {
            half_up(product, power2::pow2((-self.exponent()) as nat))
        }
    }

    /// Whether a finite double is the whole number `n`, up to its sign.
    pub open spec fn is_whole(self, n: nat) -> bool {
        if self.exponent() >= 0 {
            n == self.significand() * power2::pow2(self.exponent() as nat)
        } else {
            self.significand() == n * power2::pow2((-self.exponent()) as nat)
        }
    }

    /// Whether the size of a finite double is at most half a unit of its last
    /// place away from `n` thousandths, as that of the double nearest to them
    /// is.
    pub open spec fn nears_thousandths(self, n: nat) -> bool {
        if self.exponent() >= 0 {
            let unit = power2::pow2(self.exponent() as nat);
            &&& 2 * (self.significand() * unit * 1000 - n) <= 1000 * unit
            &&& 2 * (n - self.significand() * unit * 1000) <= 1000 * unit
        } else {
            let parts = power2::pow2((-self.exponent()) as nat);
            &&& 2 * (self.significand() * 1000 - n * parts) <= 1000
            &&& 2 * (n * parts - self.significand() * 1000) <= 1000
        }
    }

    /// `thousandfold`, computed as far as it lies below 2^63.
    pub fn times_thousand(self) -> (r: u64)
        requires
            self.finite(),
        ensures
            r < 0x8000_0000_0000_0000 ==> r == self.thousandfold(),
            r >= 0x8000_0000_0000_0000 ==> self.thousandfold() >= 0x8000_0000_0000_0000,
    {
        let biased: u64 = (self.bits / 0x10_0000_0000_0000) % 0x800;
        let fraction: u64 = self.bits % 0x10_0000_0000_0000;
        let significand: u64 = if biased == 0 {
            fraction
        } else {
            fraction + 0x10_0000_0000_0000
        };
        let product: u64 = nearest_double(significand * 1000);
        assert(product < 0x8000_0000_0000_0000) by {
            lemma_nearest_bound((significand * 1000) as nat);
        }
        if biased >= 1075 {
            scale_up(product, (biased - 1075) as u32)
        } else {
            let down: u32 = if biased == 0 {
                1074
            } else {
                (1075 - biased) as u32
            };
            scale_down(product, down)
        }
    }
}

/// `n * 2^e` as far as it lies below 2^63.
fn scale_up(n: u64, e: u32) -> (r: u64)
    requires
        n < 0x8000_0000_0000_0000,
    ensures
        r < 0x8000_0000_0000_0000 ==> r == n * power2::pow2(e as nat),
        r >= 0x8000_0000_0000_0000 ==> n * power2::pow2(e as nat) >= 0x8000_0000_0000_0000,
{
    let mut r: u64 = n;
    let mut i: u32 = 0;
    proof {
        power2::lemma2_to64();
        assert(n * 1 == n);
    }
    while i < e
        invariant
            i <= e,
            r < 0x8000_0000_0000_0000,
            r == n * power2::pow2(i as nat),
        decreases e - i,
    {
        proof {
            let p = power2::pow2(i as nat);
            power2::lemma_pow2_unfold((i + 1) as nat);
            assert(n * (2 * p) == 2 * (n * p)) by (nonlinear_arith);
            lemma_power_grows((i + 1) as nat, e as nat);
            let next = power2::pow2((i + 1) as nat);
            assert(n * next <= n * power2::pow2(e as nat)) by (nonlinear_arith)
                requires
                    next <= power2::pow2(e as nat),
            ;
        }
        r = r * 2;
        i = i + 1;
        if r >= 0x8000_0000_0000_0000 {
            return r;
        }
    }
    r
}

/// `n / 2^e`, rounded.
fn scale_down(n: u64, e: u32) -> (r: u64)
    requires
        n < 0x8000_0000_0000_0000,
        0 < e,
    ensures
        r == half_up(n as nat, power2::pow2(e as nat)),
        r < 0x8000_0000_0000_0000,
{
    if e >= 64 {
        proof {
            power2::lemma2_to64();
            power2::lemma2_to64_rest();
            lemma_power_grows(64, e as nat);
            vstd::arithmetic::div_mod::lemma_small_mod(n as nat, power2::pow2(e as nat));
            vstd::arithmetic::div_mod::lemma_basic_div(n as int, power2::pow2(e as nat) as int);
        }
        return 0;
    }
    let d: u64 = power(e);
    proof {
        power2::lemma2_to64();
        lemma_power_grows(1, e as nat);
    }
    let q: u64 = n / d;
    let rest: u64 = n % d;
    assert(q <= n / 2) by (nonlinear_arith)
        requires
            q == n / d,
            d >= 2,
    ;
    if rest < d - rest {
        q
    } else {
        q + 1
    }
}

/// Rounding to a double does not pass a double.
proof fn lemma_nearest_bound(n: nat)
    requires
        n <= 1000 * LIMIT,
    ensures
        nearest(n) <= 1000 * LIMIT,
{
    lemma_excess(n);
    let k = excess(n);
    let unit = power2::pow2(k);
    power2::lemma2_to64();
    if k > 10 {
        lemma_power_grows(11, k);
        assert(false) by (nonlinear_arith)
            requires
                (LIMIT as nat) / 2 * unit <= n,
                n <= 1000 * LIMIT,
                unit >= 2048,
        ;
    }
    power2::lemma_pow2_adds(k, (10 - k) as nat);
    let rest = power2::pow2((10 - k) as nat);
    assert(unit * rest == 1024);
    let bound = 1000 * LIMIT as nat / 1024 * rest;
    assert(bound * unit == 1000 * LIMIT as nat) by (nonlinear_arith)
        requires
            unit * rest == 1024,
            bound == 1000 * LIMIT as nat / 1024 * rest,
    ;
    power2::lemma_pow2_pos(k);
    lemma_half_even_bound(n, unit, bound);
    let rounded = half_even(n, unit);
    assert(rounded * unit <= bound * unit) by (nonlinear_arith)
        requires
            rounded <= bound,
    ;
}

/// What `excess` counts: `n` without those bits is a significand, with its
/// first bit set where there was anything to count.
pub(crate) proof fn lemma_excess(n: nat)
    ensures
        n < LIMIT * power2::pow2(excess(n)),
        excess(n) > 0 ==> LIMIT / 2 * power2::pow2(excess(n)) <= n,
    decreases n,
{
    power2::lemma2_to64();
    if n >= LIMIT {
        lemma_excess(n / 2);
        let k = excess(n / 2);
        let p = power2::pow2(k);
        power2::lemma_pow2_unfold(k + 1);
        assert(power2::pow2(excess(n)) == 2 * p);
        assert(n < LIMIT * (2 * p)) by (nonlinear_arith)
            requires
                n / 2 < LIMIT * p,
        ;
        if k > 0 {
            assert(LIMIT / 2 * (2 * p) <= n) by (nonlinear_arith)
                requires
                    LIMIT / 2 * p <= n / 2,
            ;
        }
    }
}

/// A significand times a power of two is a double.
pub(crate) proof fn lemma_nearest_exact(x: nat, n: nat)
    requires
        x < LIMIT,
    ensures
        nearest(x * power2::pow2(n)) == x * power2::pow2(n),
{
    let p = x * power2::pow2(n);
    let k = excess(p);
    lemma_excess(p);
    power2::lemma_pow2_pos(n);
    power2::lemma_pow2_pos(k);
    if k > n {
        lemma_power_grows(n + 1, k);
        power2::lemma_pow2_unfold(n + 1);
        assert(false) by (nonlinear_arith)
            requires
                LIMIT / 2 * power2::pow2(k) <= p,
                p == x * power2::pow2(n),
                x < LIMIT,
                power2::pow2(k) >= 2 * power2::pow2(n),
                power2::pow2(n) > 0,
                LIMIT == 0x20_0000_0000_0000,
        ;
    }
    let rest = power2::pow2((n - k) as nat);
    power2::lemma_pow2_adds((n - k) as nat, k);
    assert(p == (x * rest) * power2::pow2(k)) by (nonlinear_arith)
        requires
            p == x * power2::pow2(n),
            power2::pow2(n) == rest * power2::pow2(k),
    ;
    lemma_half_even_exact(x * rest, power2::pow2(k));
}

/// Below 2^42 seconds, half a unit of the last place and the rounding of the
/// product together are less than half a thousandth.
pub(crate) proof fn lemma_thousandfold_near(x: Double, n: nat)
    requires
        x.finite(),
        x.nears_thousandths(n),
        n < LIMIT / 2048 * 1000,
    ensures
        x.thousandfold() == n,
{
    let m = x.significand();
    let t = m * 1000;
    power2::lemma2_to64();
    if x.exponent() >= 0 {
        let unit = power2::pow2(x.exponent() as nat);
        power2::lemma_pow2_pos(x.exponent() as nat);
        assert(false) by (nonlinear_arith)
            requires
                2 * (m * unit * 1000 - n) <= 1000 * unit,
                m >= 0x10_0000_0000_0000,
                unit >= 1,
                n < 0x20_0000_0000_0000nat / 2048 * 1000,
        ;
    }
    let e = (-x.exponent()) as nat;
    let parts = power2::pow2(e);
    power2::lemma_pow2_pos(e);
    if e <= 10 {
        lemma_power_grows(e, 10);
        assert(n * parts <= n * 1024) by (nonlinear_arith)
            requires
                parts <= 1024,
        ;
        assert(m >= 0x10_0000_0000_0000);
        assert(false);
    }
    lemma_power_grows(11, e);
    let k = excess(t);
    let unit = power2::pow2(k);
    lemma_excess(t);
    if k > 10 {
        lemma_power_grows(11, k);
        assert(false) by (nonlinear_arith)
            requires
                LIMIT as nat / 2 * unit <= t,
                t < 1000 * LIMIT,
                unit >= 2048,
        ;
    }
    lemma_power_grows(k, 10);
    power2::lemma_pow2_pos(k);
    lemma_half_even_near(t, unit);
    let product = nearest(t);
    assert(2 * (product - n * parts) < parts);
    assert(2 * (n * parts - product) < parts);
    lemma_half_up_unique(product, parts, n);
}

/// A quotient that is less than half a unit away from `n` rounds to `n`.
proof fn lemma_half_up_unique(num: nat, den: nat, n: nat)
    requires
        0 < den,
        2 * (n * den - num) < den,
        2 * (num - n * den) < den,
    ensures
        half_up(num, den) == n,
{
    let q = num / den;
    let r = num % den;
    assert(num == q * den + r && r < den) by (nonlinear_arith)
        requires
            0 < den,
            q == num / den,
            r == num % den,
    ;
    assert(n == q && 2 * r < den || n == q + 1 && 2 * r > den) by (nonlinear_arith)
        requires
            num == q * den + r,
            0 <= r < den,
            2 * (n * den - num) < den,
            2 * (num - n * den) < den,
    ;
}

/// A whole number below 2^53 / 1000 is multiplied by a thousand without
/// rounding.
pub(crate) proof fn lemma_thousandfold_exact(x: Double, n: nat)
    requires
        x.finite(),
        x.is_whole(n),
        n * 1000 < LIMIT,
    ensures
        x.thousandfold() == n * 1000,
{
    let m = x.significand();
    power2::lemma2_to64();
    if x.exponent() >= 0 {
        let p = power2::pow2(x.exponent() as nat);
        power2::lemma_pow2_pos(x.exponent() as nat);
        assert(m <= n) by (nonlinear_arith)
            requires
                n == m * p,
                p > 0,
        ;
        lemma_nearest_exact(m * 1000, 0);
        assert((m * 1000) * 1 == m * 1000);
        assert((m * 1000) * p == n * 1000) by (nonlinear_arith)
            requires
                n == m * p,
        ;
    } else {
        let e = (-x.exponent()) as nat;
        let p = power2::pow2(e);
        power2::lemma_pow2_pos(e);
        assert(m * 1000 == (n * 1000) * p) by (nonlinear_arith)
            requires
                m == n * p,
        ;
        lemma_nearest_exact(n * 1000, e);
        let t = n * 1000;
        assert((t * p) / p == t && (t * p) % p == 0) by (nonlinear_arith)
            requires
                p > 0,
        ;
    }
}

} // verus!
