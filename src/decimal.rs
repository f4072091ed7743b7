use rust_decimal::MathematicalOps;
use vstd::prelude::*;

verus! {

/// Largest scale of a `rust_decimal::Decimal`.
pub const MAX_DECIMAL_SCALE: u32 = 28;

/// Bound on the magnitude of a `rust_decimal::Decimal` mantissa (96 bits).
pub const MANTISSA_LIMIT: i128 = 0x1_0000_0000_0000_0000_0000_0000;

/// Mantissa and scale of `(base / 10^base_scale) ^ (exp / 10^exp_scale)` as computed by
/// rust_decimal's `checked_powd`, or `None` where it reports overflow.
pub uninterp spec fn decimal_powd(base: int, base_scale: int, exp: int, exp_scale: int) -> Option<(int, int)>;

/// Relies on rust_decimal's `MathematicalOps::checked_powd` for a power with a
/// fractional exponent; the result is handed back as mantissa and scale.
#[verifier::external_body]
pub(crate) fn powd_parts(base: i64, base_scale: u32, exp: i64, exp_scale: u32) -> (r: Option<(i128, u32)>)
    requires
        base_scale <= MAX_DECIMAL_SCALE,
        exp_scale <= MAX_DECIMAL_SCALE,
    ensures
        decimal_powd(base as int, base_scale as int, exp as int, exp_scale as int) == match r {
            Some((m, s)) => Some((m as int, s as int)),
            None => None,
        },
        r matches Some((m, s)) ==> s <= MAX_DECIMAL_SCALE && -MANTISSA_LIMIT < m < MANTISSA_LIMIT,
        exp == 0 ==> r == Some((1i128, 0u32)),
{
    let b = rust_decimal::Decimal::new(base, base_scale);
    let e = rust_decimal::Decimal::new(exp, exp_scale);
    b.checked_powd(e).map(|d| (d.mantissa(), d.scale()))
}

/// `10^n`.
pub open spec fn pow10(n: nat) -> int
    decreases n,
{
    if n == 0 {
        1
    } else {
        10 * pow10((n - 1) as nat)
    }
}

pub proof fn lemma_pow10_mono(i: nat, j: nat)
    requires
        i <= j,
    ensures
        1 <= pow10(i) <= pow10(j),
    decreases j,
{
    if j > i {
        lemma_pow10_mono(i, (j - 1) as nat);
    } else if i > 0 {
        lemma_pow10_mono((i - 1) as nat, (i - 1) as nat);
    }
}

/// `10^n` for a decimal scale.
pub fn pow10_exec(n: u32) -> (r: i128)
    requires
        n <= MAX_DECIMAL_SCALE,
    ensures
        r == pow10(n as nat),
        1 <= r <= 10_000_000_000_000_000_000_000_000_000i128,
{
    proof {
        reveal_with_fuel(pow10, 29);
        assert(pow10(28) == 10_000_000_000_000_000_000_000_000_000i128);
    }
    let mut p: i128 = 1;
    let mut i: u32 = 0;
    while i < n
        invariant
            i <= n <= MAX_DECIMAL_SCALE,
            p == pow10(i as nat),
            pow10(28) == 10_000_000_000_000_000_000_000_000_000i128,
        decreases n - i,
    {
        proof {
            lemma_pow10_mono((i + 1) as nat, 28);
        }
        p = p * 10;
        i = i + 1;
    }
    proof {
        lemma_pow10_mono(n as nat, 28);
    }
    p
}

/// `n / d` rounded to the nearest integer, ties to the even neighbour (the rounding of
/// rust_decimal's `round`).
pub open spec fn round_div(n: int, d: int) -> int {
    let q = n / d;
    let r = n % d;
    if 2 * r > d {
        q + 1
    } else if 2 * r < d {
        q
    } else if q % 2 == 0 {
        q
    } else {
        q + 1
    }
}

/// The rounded quotient is within half a divisor of `n`.
pub proof fn lemma_round_div(n: int, d: int)
    requires
        d > 0,
    ensures
        2 * (n - round_div(n, d) * d) <= d,
        -d <= 2 * (n - round_div(n, d) * d),
{
    let q = n / d;
    let r = n % d;
    vstd::arithmetic::div_mod::lemma_fundamental_div_mod(n, d);
    assert(0 <= r < d);
    assert(n == d * q + r);
    assert((q + 1) * d == q * d + d) by (nonlinear_arith);
    assert(q * d == d * q) by (nonlinear_arith);
}

/// Where `d <= |n| < 3d/2` the rounded quotient is the sign of `n`.
pub proof fn lemma_round_div_unit(n: int, d: int)
    requires
        d > 0,
        n >= d || n <= -d,
        2 * n < 3 * d,
        -3 * d < 2 * n,
    ensures
        round_div(n, d) == if n > 0 { 1int } else { -1int },
{
    lemma_round_div(n, d);
    let t = round_div(n, d);
    assert(t == if n > 0 { 1int } else { -1int }) by (nonlinear_arith)
        requires
            d > 0,
            n >= d || n <= -d,
            2 * n < 3 * d,
            -3 * d < 2 * n,
            2 * (n - t * d) <= d,
            -d <= 2 * (n - t * d),
    ;
}

/// `n / d` rounded to the nearest integer, ties to even.
pub fn div_round(n: i128, d: i128) -> (r: i128)
    requires
        0 < d < 0x2000_0000_0000_0000_0000_0000_0000_0000,
        -0x4000_0000_0000_0000_0000_0000_0000_0000 < n < 0x4000_0000_0000_0000_0000_0000_0000_0000,
    ensures
        r == round_div(n as int, d as int),
{
    let ghost gd = d as int;
    let q: i128;
    let r: i128;
    if n >= 0 {
        let qu: u128 = (n as u128) / (d as u128);
        let ru: u128 = (n as u128) % (d as u128);
        proof {
            vstd::arithmetic::div_mod::lemma_fundamental_div_mod(n as int, d as int);
            vstd::arithmetic::div_mod::lemma_mod_pos_bound(n as int, d as int);
            assert(n as int == qu * d + ru) by (nonlinear_arith)
                requires
                    n as int == d * qu + ru,
            ;
        }
        q = qu as i128;
        r = ru as i128;
    } else {
        let m: u128 = (0 - n) as u128;
        let q0: u128 = m / (d as u128);
        let r0: u128 = m % (d as u128);
        proof {
            vstd::arithmetic::div_mod::lemma_fundamental_div_mod(m as int, d as int);
            vstd::arithmetic::div_mod::lemma_mod_pos_bound(m as int, d as int);
            assert(q0 <= m) by (nonlinear_arith)
                requires
                    m as int == d * q0 + r0,
                    d >= 1,
                    r0 >= 0,
                    q0 >= 0,
            ;
        }
        if r0 == 0 {
            q = 0 - q0 as i128;
            r = 0;
        } else {
            q = 0 - q0 as i128 - 1;
            r = d - r0 as i128;
        }
        assert(n as int == q * d + r) by (nonlinear_arith)
            requires
                m as int == -n,
                m as int == d * q0 + r0,
                (r0 == 0 && q == -q0 && r == 0) || (r0 != 0 && q == -q0 - 1 && r == d - r0),
        ;
    }
    assert(0 <= r < d);
    proof {
        vstd::arithmetic::div_mod::lemma_fundamental_div_mod_converse(n as int, d as int, q as int, r as int);
    }
    if 2 * r > d {
        q + 1
    } else if 2 * r < d {
        q
    } else if q % 2 == 0 {
        q
    } else {
        q + 1
    }
}

pub open spec fn abs(x: int) -> int {
    if x < 0 {
        -x
    } else {
        x
    }
}

/// The rounded quotient is no larger in magnitude than the dividend plus one.
pub proof fn lemma_round_div_magnitude(n: int, d: int)
    requires
        d >= 1,
    ensures
        -abs(n) - 1 <= round_div(n, d) <= abs(n) + 1,
{
    lemma_round_div(n, d);
    let t = round_div(n, d);
    assert(-abs(n) - 1 <= t <= abs(n) + 1) by (nonlinear_arith)
        requires
            d >= 1,
            2 * (n - t * d) <= d,
            -d <= 2 * (n - t * d),
    ;
}

} // verus!
