//! Laws of times: seconds as they are sent and read, and milliseconds.

use crate::convert;
use crate::double;
use crate::double::Double;
use crate::laws::texts;
use crate::prom;
use crate::text;
use vstd::arithmetic::power2;
use vstd::prelude::*;

verus! {

/// Whether a double is made of these parts: its sign, its exponent as it is
/// stored, and its fraction.
pub open spec fn made_of(x: Double, negative: bool, exponent: nat, fraction: nat) -> bool {
    &&& exponent <= 0x7ff
    &&& fraction < 0x10_0000_0000_0000
    &&& x.bits == (if negative {
        0x8000_0000_0000_0000int
    } else {
        0
    }) + exponent * 0x10_0000_0000_0000 + fraction
}

proof fn lemma_made_of(x: Double, negative: bool, exponent: nat, fraction: nat)
    requires
        made_of(x, negative, exponent, fraction),
    ensures
        x.negative() == negative,
        x.biased_exponent() == exponent,
        x.fraction() == fraction,
{
    let high: nat = if negative {
        0x800 + exponent
    } else {
        exponent
    };
    assert(x.bits == high * 0x10_0000_0000_0000 + fraction);
    assert(x.bits as nat / 0x10_0000_0000_0000 == high);
}

/// The size of a number.
pub open spec fn size(n: int) -> int {
    if n < 0 {
        -n
    } else {
        n
    }
}

/// Rounding a significand's thousandfold to a double moves it by at most 512,
/// and not at all where it is a multiple of 1024.
proof fn lemma_rounded_product(t: nat)
    requires
        t < 1000 * double::LIMIT,
    ensures
        size(double::nearest(t) - t) <= 512,
        t % 1024 == 0 ==> double::nearest(t) == t,
        double::nearest(t) <= 1000 * double::LIMIT,
{
    let k = double::excess(t);
    let unit = power2::pow2(k);
    power2::lemma2_to64();
    double::lemma_excess(t);
    if k > 10 {
        double::lemma_power_grows(11, k);
        assert(false) by (nonlinear_arith)
            requires
                double::LIMIT as nat / 2 * unit <= t,
                t < 1000 * double::LIMIT,
                unit >= 2048,
        ;
    }
    double::lemma_power_grows(k, 10);
    power2::lemma_pow2_pos(k);
    double::lemma_half_even_near(t, unit);
    power2::lemma_pow2_adds(k, (10 - k) as nat);
    let rest = power2::pow2((10 - k) as nat);
    if t % 1024 == 0 {
        let n = t / 1024 * rest;
        assert(t == n * unit) by (nonlinear_arith)
            requires
                t == t / 1024 * 1024,
                n == t / 1024 * rest,
                unit * rest == 1024,
        ;
        double::lemma_half_even_exact(n, unit);
    }
    let bound = 1000 * double::LIMIT as nat / 1024 * rest;
    assert(bound * unit == 1000 * double::LIMIT as nat) by (nonlinear_arith)
        requires
            unit * rest == 1024,
            bound == 1000 * double::LIMIT as nat / 1024 * rest,
    ;
    double::lemma_half_even_bound(t, unit, bound);
    let rounded = double::half_even(t, unit);
    assert(rounded * unit <= bound * unit) by (nonlinear_arith)
        requires
            rounded <= bound,
    ;
}

/// What `half_up` gives is nearest, and the larger one of two.
proof fn lemma_half_up(num: nat, den: nat)
    requires
        0 < den,
    ensures
        2 * num - den < 2 * (double::half_up(num, den) * den) <= 2 * num + den,
{
    let q = num / den;
    let r = num % den;
    assert(num == q * den + r && r < den) by (nonlinear_arith)
        requires
            0 < den,
            q == num / den,
            r == num % den,
    ;
    assert((q + 1) * den == q * den + den) by (nonlinear_arith);
}

/// Seconds below 2^53 become the nearest milliseconds, with the sign that they
/// have: the double `(2^52 + fraction) / 2^(1075 - exponent)`, a thousand times,
/// is at most half a millisecond away, and what the rounding of the product
/// adds. Where that adds nothing, half a millisecond is rounded away from zero.
pub proof fn law_milliseconds_are_the_nearest(
    seconds: Double,
    negative: bool,
    exponent: nat,
    fraction: nat,
    r: i64,
)
    requires
        call_ensures(convert::to_ms, (seconds,), r),
        made_of(seconds, negative, exponent, fraction),
        0 < exponent < 1075,
    ensures
        negative ==> r <= 0,
        !negative ==> r >= 0,
        ({
            let parts = power2::pow2((1075 - exponent) as nat);
            let product = (0x10_0000_0000_0000 + fraction) * 1000;
            &&& 2 * (size(r as int) * parts - product) <= parts + 1024
            &&& 2 * (product - size(r as int) * parts) <= parts + 1024
            &&& product % 1024 == 0 ==> 2 * product - parts < 2 * (size(r as int) * parts) <= 2
                * product + parts
        }),
{
    lemma_made_of(seconds, negative, exponent, fraction);
    let e = (1075 - exponent) as nat;
    let parts = power2::pow2(e);
    let t: nat = (0x10_0000_0000_0000 + fraction) * 1000;
    lemma_rounded_product(t);
    let product = double::nearest(t);
    power2::lemma_pow2_pos(e);
    lemma_half_up(product, parts);
    let got = double::half_up(product, parts);
    power2::lemma2_to64();
    double::lemma_power_grows(1, e);
    assert(got <= product) by (nonlinear_arith)
        requires
            2 * (got * parts) <= 2 * product + parts,
            parts >= 2,
            got >= 0,
            product >= 2,
    ;
    assert(seconds.thousandfold() == got);
    assert(size(r as int) == got);
}

/// Seconds from 2^52 on are whole, and become their thousandfold, as far as
/// doubles and the wire type go: what is too large stays at the largest number
/// there is, and at the smallest one below zero.
pub proof fn law_large_times_stay_in_bounds(
    seconds: Double,
    negative: bool,
    exponent: nat,
    fraction: nat,
    r: i64,
)
    requires
        call_ensures(convert::to_ms, (seconds,), r),
        made_of(seconds, negative, exponent, fraction),
        1075 <= exponent < 0x7ff,
    ensures
        negative ==> r <= 0,
        !negative ==> r >= 0,
        ({
            let unit = power2::pow2((exponent - 1075) as nat);
            let product = (0x10_0000_0000_0000 + fraction) * 1000;
            &&& (product + 512) * unit < 0x8000_0000_0000_0000 ==> size(
                size(r as int) - product * unit,
            ) <= 512 * unit
            &&& (product - 512) * unit >= 0x8000_0000_0000_0000 ==> r == (if negative {
                i64::MIN
            } else {
                i64::MAX
            })
        }),
{
    lemma_made_of(seconds, negative, exponent, fraction);
    let e = (exponent - 1075) as nat;
    let unit = power2::pow2(e);
    let t: nat = (0x10_0000_0000_0000 + fraction) * 1000;
    lemma_rounded_product(t);
    power2::lemma_pow2_pos(e);
    let product = double::nearest(t);
    let got = product * unit;
    assert(seconds.thousandfold() == got);
    assert((t - 512) * unit <= got <= (t + 512) * unit) by (nonlinear_arith)
        requires
            t - 512 <= product <= t + 512,
            got == product * unit,
            unit > 0,
    ;
    assert((t + 512) * unit == t * unit + 512 * unit) by (nonlinear_arith);
    assert((t - 512) * unit == t * unit - 512 * unit) by (nonlinear_arith);
}

/// Zero, and what is too small for a thousandth, is no time at all; so is what
/// is not a number. An infinity is the largest or the smallest time there is.
pub proof fn law_odd_times_have_milliseconds(
    seconds: Double,
    negative: bool,
    exponent: nat,
    fraction: nat,
    r: i64,
)
    requires
        call_ensures(convert::to_ms, (seconds,), r),
        made_of(seconds, negative, exponent, fraction),
        exponent == 0 || exponent == 0x7ff,
    ensures
        exponent == 0 ==> r == 0,
        exponent == 0x7ff && fraction != 0 ==> r == 0,
        exponent == 0x7ff && fraction == 0 ==> r == (if negative {
            i64::MIN
        } else {
            i64::MAX
        }),
{
    lemma_made_of(seconds, negative, exponent, fraction);
    if exponent == 0 {
        lemma_tiny(seconds, fraction);
    }
}

/// A double below the least exponent is too small for a thousandth.
proof fn lemma_tiny(seconds: Double, fraction: nat)
    requires
        seconds.biased_exponent() == 0,
        seconds.fraction() == fraction,
    ensures
        seconds.thousandfold() == 0,
        convert::ms_of(seconds) == 0,
{
    let parts = power2::pow2(1074);
    let t: nat = fraction * 1000;
    lemma_rounded_product(t);
    power2::lemma2_to64_rest();
    double::lemma_power_grows(64, 1074);
    let product = double::nearest(t);
    vstd::arithmetic::div_mod::lemma_small_mod(product, parts);
    vstd::arithmetic::div_mod::lemma_basic_div(product as int, parts as int);
}

/// Whether a text is a number of thousandths: a minus sign for one below zero,
/// the whole number, a point, and three digits.
pub open spec fn written_in_thousandths(s: Seq<char>, negative: bool, thousandths: nat) -> bool {
    let sign: int = if negative {
        1
    } else {
        0
    };
    let point = s.len() - 4;
    &&& sign < point
    &&& negative ==> s[0] == '-'
    &&& s[point] == '.'
    &&& texts::plain_number(s.subrange(sign, point))
    &&& forall|i: int| point < i < s.len() ==> texts::is_digit(#[trigger] s[i])
    &&& texts::reads(s.subrange(sign, point)) * 1000 + texts::reads(s.skip(point + 1))
        == thousandths
}

proof fn lemma_fixed_point(negative: bool, n: nat)
    ensures
        written_in_thousandths(prom::fixed_point(negative, n), negative, n),
{
    let s = prom::fixed_point(negative, n);
    let sign: int = if negative {
        1
    } else {
        0
    };
    let whole = text::decimal(n / 1000);
    let rest = n % 1000;
    let tail = prom::three_digits(rest);
    texts::lemma_decimal(n / 1000);
    let point = s.len() - 4;
    assert(tail.len() == 3);
    assert(s.subrange(sign, point) == whole);
    assert(s.skip(point + 1) == tail);
    assert(s[point] == '.');
    assert(tail.drop_last() == seq![tail[0], tail[1]]);
    assert(tail.drop_last().drop_last() == seq![tail[0]]);
    assert(tail.drop_last().drop_last().drop_last() == Seq::<char>::empty());
    reveal_with_fuel(texts::reads, 4);
    assert(tail[0] as u32 == 48 + rest / 100 % 10);
    assert(tail[1] as u32 == 48 + rest / 10 % 10);
    assert(tail[2] as u32 == 48 + rest % 10);
    assert(texts::reads(tail) == rest);
    assert forall|i: int| point < i < s.len() implies texts::is_digit(#[trigger] s[i]) by {
        assert(s[i] == tail[i - point - 1]);
    }
}

/// Whether a time is one before zero.
pub open spec fn is_negative(ms: i64) -> bool {
    ms < 0
}

/// Whether `n` thousandths are a time in milliseconds, without its sign: exactly
/// below 2^43 seconds, and beyond that up to two parts in 2^53 and half of one.
pub open spec fn near(ms: i64, n: nat) -> bool {
    &&& size(ms as int) < 1000 * 0x800_0000_0000 ==> n == size(ms as int)
    &&& size(n - size(ms as int)) * 0x10_0000_0000_0000 <= size(ms as int) + 0x10_0000_0000_0000
}

/// Whether a text tells a time in milliseconds: as seconds, with three places.
pub open spec fn tells_time(s: Seq<char>, ms: i64) -> bool {
    exists|n: nat| #[trigger] written_in_thousandths(s, is_negative(ms), n) && near(ms, n)
}

pub(crate) proof fn lemma_seconds_text(ms: i64)
    ensures
        tells_time(prom::seconds_text(ms), ms),
{
    let whole = prom::size(ms);
    let n = double::thousandths(double::nearest(whole));
    lemma_fixed_point(ms < 0, n);
    if whole < 1000 * 0x800_0000_0000 {
        double::lemma_nearest_exact(whole, 0);
        power2::lemma2_to64();
        assert(whole * 1 == whole);
        double::lemma_thousandths_exact(whole);
    }
    lemma_thousandths_near(whole);
    assert(written_in_thousandths(prom::seconds_text(ms), is_negative(ms), n) && near(ms, n));
}

/// Milliseconds are sent as seconds with three places. Below 2^43 seconds they
/// are exactly the time; beyond that they are as near as doubles are.
pub proof fn law_seconds_are_the_time(ms: i64, r: String)
    requires
        call_ensures(prom::secs, (ms,), r),
    ensures
        tells_time(r@, ms),
{
    lemma_seconds_text(ms);
}

/// The two roundings move a time by at most two parts in 2^53, and half a
/// millisecond.
proof fn lemma_thousandths_near(n: nat)
    requires
        n <= 0x8000_0000_0000_0000,
    ensures
        size(double::thousandths(double::nearest(n)) - n) * 0x10_0000_0000_0000 <= n
            + 0x10_0000_0000_0000,
{
    let k = double::excess(n);
    let unit = power2::pow2(k);
    let x = double::nearest(n);
    double::lemma_excess(n);
    power2::lemma_pow2_pos(k);
    double::lemma_half_even_near(n, unit);
    power2::lemma2_to64();
    let limit = double::LIMIT as int;
    // The first rounding.
    assert(2 * size(x - n) <= unit);
    if k == 0 {
        assert(x == n);
    }
    assert(limit * size(x - n) <= n) by {
        if k > 0 {
            assert(limit * (2 * size(x - n)) <= limit * unit) by (nonlinear_arith)
                requires
                    2 * size(x - n) <= unit,
                    limit > 0,
            ;
            assert(limit * unit == 2 * (limit / 2 * unit)) by (nonlinear_arith)
                requires
                    limit == 0x20_0000_0000_0000,
            ;
            assert(limit * (2 * size(x - n)) == 2 * (limit * size(x - n))) by (nonlinear_arith);
        }
    }
    // The second one.
    let v = double::thousandths(x);
    assert(2 * limit * size(v - x) <= 2 * x + limit) by {
        if x >= 1000 * double::LIMIT {
            double::lemma_half_even_near(x, 2000);
        } else if x == 0 {
            let d = power2::pow2(double::lift(0));
            double::lemma_half_even_exact(0, 1000);
            double::lemma_half_even_exact(0, d);
        } else {
            let d = power2::pow2(double::lift(x));
            power2::lemma_pow2_pos(double::lift(x));
            double::lemma_lift(x);
            let m = double::half_even(x * d, 1000);
            double::lemma_half_even_near(x * d, 1000);
            double::lemma_half_even_near(m * 1000, d);
            let gap = size(v - x);
            assert(2 * (gap * d) <= 1000 + d) by (nonlinear_arith)
                requires
                    gap == v - x || gap == x - v,
                    2 * (v * d - m * 1000) <= d,
                    2 * (m * 1000 - v * d) <= d,
                    2 * (m * 1000 - x * d) <= 1000,
                    2 * (x * d - m * 1000) <= 1000,
            ;
            assert(2 * limit * gap <= 2 * x + limit) by (nonlinear_arith)
                requires
                    2 * (gap * d) <= 1000 + d,
                    x * d >= 500 * limit,
                    d > 0,
                    limit > 0,
                    gap >= 0,
                    x > 0,
            ;
        }
    }
    assert(size(v - n) <= size(v - x) + size(x - n));
    assert(limit * size(v - n) <= limit * size(v - x) + limit * size(x - n)) by (nonlinear_arith)
        requires
            size(v - n) <= size(v - x) + size(x - n),
            limit > 0,
    ;
    assert(2 * limit * size(v - x) == 2 * (limit * size(v - x))) by (nonlinear_arith);
    assert(limit * size(v - n) == 2 * (size(v - n) * 0x10_0000_0000_0000));
}

/// Whether `q` is the whole number nearest to `num / den`, and the even one where
/// two are equally near.
pub open spec fn is_nearest(q: nat, num: nat, den: nat) -> bool {
    &&& 2 * size(q * den - num) <= den
    &&& 2 * size(q * den - num) == den ==> q % 2 == 0
}

/// Whether `p` is the double nearest to the whole number `n`: a multiple of the
/// power of two that leaves `n` 53 bits, the nearest one, and the even one where
/// two are equally near.
pub open spec fn is_nearest_double(p: nat, n: nat) -> bool {
    exists|k: nat, q: nat|
        {
            &&& p == #[trigger] (q * power2::pow2(k))
            &&& n < 0x20_0000_0000_0000 * power2::pow2(k)
            &&& k > 0 ==> 0x10_0000_0000_0000 * power2::pow2(k) <= n
            &&& is_nearest(q, n, power2::pow2(k))
        }
}

proof fn lemma_half_even(num: nat, den: nat)
    requires
        0 < den,
    ensures
        is_nearest(double::half_even(num, den), num, den),
{
    let q = num / den;
    let r = num % den;
    assert(num == q * den + r && r < den) by (nonlinear_arith)
        requires
            0 < den,
            q == num / den,
            r == num % den,
    ;
    assert((q + 1) * den == q * den + den) by (nonlinear_arith);
}

proof fn lemma_nearest(n: nat)
    ensures
        is_nearest_double(double::nearest(n), n),
{
    let k = double::excess(n);
    double::lemma_excess(n);
    power2::lemma_pow2_pos(k);
    lemma_half_even(n, power2::pow2(k));
    let q = double::half_even(n, power2::pow2(k));
    assert(double::nearest(n) == q * power2::pow2(k));
}

/// Whether `r` is a double of these parts in milliseconds. The double is
/// multiplied by a thousand as doubles are, and the product is rounded to whole
/// milliseconds, half a one away from zero; what does not fit stays at the bound.
/// What is not a number, and what is too small for a thousandth, is zero.
pub open spec fn is_in_ms(r: i64, negative: bool, exponent: nat, fraction: nat) -> bool {
    let bound = if negative {
        i64::MIN
    } else {
        i64::MAX
    };
    &&& negative ==> r <= 0
    &&& !negative ==> r >= 0
    &&& exponent == 0 ==> r == 0
    &&& exponent == 0x7ff && fraction != 0 ==> r == 0
    &&& exponent == 0x7ff && fraction == 0 ==> r == bound
    &&& 0 < exponent < 1075 ==> exists|product: nat|
        {
            let parts = power2::pow2((1075 - exponent) as nat);
            &&& #[trigger] is_nearest_double(
                product,
                ((0x10_0000_0000_0000 + fraction) * 1000) as nat,
            )
            &&& 2 * product - parts < 2 * (size(r as int) * parts) <= 2 * product + parts
        }
    &&& 1075 <= exponent < 0x7ff ==> exists|product: nat|
        {
            let got = product * power2::pow2((exponent - 1075) as nat);
            &&& #[trigger] is_nearest_double(
                product,
                ((0x10_0000_0000_0000 + fraction) * 1000) as nat,
            )
            &&& got < 0x8000_0000_0000_0000 ==> size(r as int) == got
            &&& got >= 0x8000_0000_0000_0000 ==> r == bound
        }
}

/// Whether `r` is a double in milliseconds.
pub open spec fn in_ms(seconds: Double, r: i64) -> bool {
    forall|negative: bool, exponent: nat, fraction: nat| #[trigger]
        made_of(seconds, negative, exponent, fraction) ==> is_in_ms(
            r,
            negative,
            exponent,
            fraction,
        )
}

proof fn lemma_is_in_ms(seconds: Double, negative: bool, exponent: nat, fraction: nat)
    requires
        made_of(seconds, negative, exponent, fraction),
    ensures
        i64::MIN <= convert::ms_of(seconds) <= i64::MAX,
        is_in_ms(convert::ms_of(seconds) as i64, negative, exponent, fraction),
{
    lemma_made_of(seconds, negative, exponent, fraction);
    let r = convert::ms_of(seconds) as i64;
    if exponent == 0 {
        lemma_tiny(seconds, fraction);
    } else if exponent < 0x7ff {
        let t: nat = ((0x10_0000_0000_0000 + fraction) * 1000) as nat;
        let product = double::nearest(t);
        lemma_nearest(t);
        lemma_rounded_product(t);
        if exponent < 1075 {
            let e = (1075 - exponent) as nat;
            let parts = power2::pow2(e);
            power2::lemma_pow2_pos(e);
            power2::lemma2_to64();
            double::lemma_power_grows(1, e);
            lemma_half_up(product, parts);
            let got = double::half_up(product, parts);
            assert(got <= product) by (nonlinear_arith)
                requires
                    2 * (got * parts) <= 2 * product + parts,
                    parts >= 2,
                    got >= 0,
                    product >= 2,
            ;
            assert(size(r as int) == got);
        }
        assert(is_nearest_double(product, t));
    }
}

pub(crate) proof fn lemma_in_ms(seconds: Double)
    ensures
        i64::MIN <= convert::ms_of(seconds) <= i64::MAX,
        in_ms(seconds, convert::ms_of(seconds) as i64),
{
    let r = convert::ms_of(seconds) as i64;
    assert forall|negative: bool, exponent: nat, fraction: nat| #[trigger]
        made_of(seconds, negative, exponent, fraction) implies is_in_ms(
        r,
        negative,
        exponent,
        fraction,
    ) by {
        lemma_is_in_ms(seconds, negative, exponent, fraction);
    }
}

/// Seconds become milliseconds as doubles are multiplied and rounded.
pub proof fn law_milliseconds_are_the_rounded_product(seconds: Double, r: i64)
    requires
        call_ensures(convert::to_ms, (seconds,), r),
    ensures
        in_ms(seconds, r),
{
    lemma_in_ms(seconds);
}

/// Every double is made of a sign, an exponent and a fraction, in one way.
pub proof fn law_a_double_is_made_of_its_parts(
    x: Double,
    negative: bool,
    exponent: nat,
    fraction: nat,
)
    ensures
        made_of(
            x,
            x.bits >= 0x8000_0000_0000_0000,
            (x.bits / 0x10_0000_0000_0000 % 0x800) as nat,
            (x.bits % 0x10_0000_0000_0000) as nat,
        ),
        made_of(x, negative, exponent, fraction) ==> {
            &&& negative == (x.bits >= 0x8000_0000_0000_0000)
            &&& exponent == x.bits / 0x10_0000_0000_0000 % 0x800
            &&& fraction == x.bits % 0x10_0000_0000_0000
        },
{
    if made_of(x, negative, exponent, fraction) {
        lemma_made_of(x, negative, exponent, fraction);
    }
}

/// Whether `v` is what the double `x`, over a thousand as doubles are divided, is
/// in thousandths, rounded to whole ones: the quotient takes 53 bits, over a
/// power of two, or times two from 2^53 on.
pub open spec fn is_quotient(v: nat, x: nat) -> bool {
    if x == 0 {
        v == 0
    } else if x >= 1000 * 0x20_0000_0000_0000 {
        exists|m: nat| #[trigger] is_nearest(m, x, 2000) && v == m * 2000
    } else {
        exists|j: nat, m: nat|
            {
                &&& 500 * 0x20_0000_0000_0000 <= x * power2::pow2(j) < 1000 * 0x20_0000_0000_0000
                &&& #[trigger] is_nearest(m, x * power2::pow2(j), 1000)
                &&& is_nearest(v, m * 1000, power2::pow2(j))
            }
    }
}

proof fn lemma_lift_below(x: nat)
    requires
        0 < x < 1000 * double::LIMIT,
    ensures
        x * power2::pow2(double::lift(x)) < 1000 * double::LIMIT,
    decreases 1000 * double::LIMIT - x,
{
    power2::lemma2_to64();
    if x >= 500 * double::LIMIT {
        assert(x * 1 == x);
    } else {
        lemma_lift_below(2 * x);
        power2::lemma_pow2_unfold(double::lift(x));
        let p = power2::pow2(double::lift(2 * x));
        assert(power2::pow2(double::lift(x)) == 2 * p);
        assert(x * (2 * p) == (2 * x) * p) by (nonlinear_arith);
    }
}

proof fn lemma_thousandths(x: nat)
    ensures
        is_quotient(double::thousandths(x), x),
{
    let v = double::thousandths(x);
    if x == 0 {
        double::lemma_half_even_exact(0, 1000);
        power2::lemma_pow2_pos(double::lift(0));
        double::lemma_half_even_exact(0, power2::pow2(double::lift(0)));
    } else if x >= 1000 * double::LIMIT {
        let m = double::half_even(x, 2000);
        lemma_half_even(x, 2000);
        assert(is_nearest(m, x, 2000) && v == m * 2000);
    } else {
        let j = double::lift(x);
        let d = power2::pow2(j);
        let m = double::half_even(x * d, 1000);
        power2::lemma_pow2_pos(j);
        double::lemma_lift(x);
        lemma_lift_below(x);
        lemma_half_even(x * d, 1000);
        lemma_half_even(m * 1000, d);
        assert(is_nearest(m, x * power2::pow2(j), 1000));
    }
}

/// Milliseconds are taken for a double, divided by a thousand as doubles are, and
/// written with three places.
pub proof fn law_seconds_are_the_rounded_quotient(ms: i64, r: String)
    requires
        call_ensures(prom::secs, (ms,), r),
    ensures
        exists|x: nat, v: nat|
            {
                &&& #[trigger] is_nearest_double(x, size(ms as int) as nat)
                &&& is_quotient(v, x)
                &&& #[trigger] written_in_thousandths(r@, is_negative(ms), v)
            },
{
    let n = prom::size(ms);
    let x = double::nearest(n);
    let v = double::thousandths(x);
    lemma_nearest(n);
    lemma_thousandths(x);
    lemma_fixed_point(ms < 0, v);
    assert(n == size(ms as int) as nat);
    assert(is_nearest_double(x, size(ms as int) as nat));
    assert(written_in_thousandths(r@, is_negative(ms), v));
}

} // verus!
