use vstd::prelude::*;

use crate::decimal::{
    decimal_powd, div_round, lemma_round_div_magnitude, pow10, pow10_exec, powd_parts, round_div,
};

verus! {

/// Largest smoothness (steps per bullet) the engine accepts.
pub const MAX_SMOOTHNESS: i64 = 32767;

/// Largest magnitude of one step's ideal movement, so that every emitted step fits `i16`.
pub const MAX_STEP: i128 = 32763;

/// Largest magnitude of the scaled power term of the first bullet.
pub const MAX_POWER: i128 = 1_000_000_000_000_000_000_000;

/// Nanoseconds in a minute: the delay between bullets is this over the rate of fire.
pub const MINUTE_NS: i128 = 60_000_000_000;

/// Release time, in microseconds, after which a burst is over.
pub const RESET_AFTER_US: u64 = 250;

/// A recoil profile. `vertical`, `initial` and `scope` are in thousandths
/// (`scope == 1500` is a 1.5x magnification).
#[derive(Clone, Copy, Debug, PartialEq, Eq, Structural)]
pub struct RecoilSettings {
    /// Vertical recoil, thousandths.
    pub vertical: i32,
    /// Exponent applied to the first bullet of a burst, thousandths.
    pub initial: i32,
    /// Rate of fire, rounds per minute.
    pub rpm: i16,
    /// Magazine size.
    pub mag_size: i16,
    /// The game's field of view.
    pub fov: i16,
    /// The game's sensitivity.
    pub sensitivity: i16,
    /// Steps per bullet; derived from the profile when unset.
    pub smoothness: Option<i16>,
    /// Scope magnification, thousandths.
    pub scope: i32,
    /// Carry the sub-unit remainder across bullets.
    pub global_overflow: bool,
    /// Carry the sub-unit remainder across the steps of a bullet.
    pub local_overflow: bool,
}

impl Default for RecoilSettings {
    fn default() -> (r: Self)
        ensures
            r.vertical == 0 && r.initial == 0 && r.rpm == 500 && r.mag_size == 30 && r.fov == 120
                && r.sensitivity == 100 && r.smoothness is None && r.scope == 1000
                && !r.global_overflow && !r.local_overflow,
    {
        RecoilSettings {
            vertical: 0,
            initial: 0,
            rpm: 500,
            mag_size: 30,
            fov: 120,
            sensitivity: 100,
            smoothness: None,
            scope: 1000,
            global_overflow: false,
            local_overflow: false,
        }
    }
}

/// Why a profile cannot drive the engine.
#[derive(Clone, Copy, Debug, PartialEq, Eq, Structural)]
pub enum ProfileError {
    /// No vertical recoil: there is nothing to compensate.
    NoVertical,
    /// The rate of fire is not positive.
    InvalidRpm,
    /// The sensitivity is not positive.
    InvalidSensitivity,
    /// A smoothness was given and is not positive.
    InvalidSmoothness,
    /// The derived smoothness has no value (square root of a negative amount).
    SmoothnessUndefined,
    /// The derived smoothness is above `MAX_SMOOTHNESS`.
    SmoothnessOutOfRange,
    /// The first-bullet power has no value.
    PowerUndefined,
    /// The first-bullet power is above `MAX_POWER` in magnitude.
    PowerOutOfRange,
    /// A step would move more than `MAX_STEP` units.
    StepOutOfRange,
}

/// `vertical * scope`, in millionths.
pub open spec fn base_mantissa(s: RecoilSettings) -> int {
    s.vertical as int * s.scope as int
}

/// `vertical * scope * multiplier`, over `y_den_of(s)`, where the multiplier is
/// `fov * (12/60) / (sensitivity/100) = 20 * fov / sensitivity`.
pub open spec fn bullet_y_num(s: RecoilSettings) -> int {
    base_mantissa(s) * 1000 * 20 * s.fov as int
}

/// Movements are held in billionths of a unit, over the sensitivity.
pub open spec fn y_den_of(s: RecoilSettings) -> int {
    1_000_000_000 * s.sensitivity as int
}

/// `r` is the square root of `n / q` rounded to the nearest integer, ties to the even
/// neighbour: `(r - 1/2)^2 <= n / q <= (r + 1/2)^2`.
pub open spec fn is_round_sqrt(n: int, q: int, r: int) -> bool {
    &&& r >= 0
    &&& r == 0 || (2 * r - 1) * (2 * r - 1) * q <= 4 * n
    &&& 4 * n <= (2 * r + 1) * (2 * r + 1) * q
    &&& r > 0 && 4 * n == (2 * r - 1) * (2 * r - 1) * q ==> r % 2 == 0
    &&& 4 * n == (2 * r + 1) * (2 * r + 1) * q ==> r % 2 == 0
}

/// The square root of `n / q` rounded to the nearest integer, ties to even.
pub open spec fn round_sqrt(n: int, q: int) -> int {
    choose|r: int| is_round_sqrt(n, q, r)
}

/// At most one integer is the rounded square root.
pub proof fn lemma_round_sqrt_unique(n: int, q: int, a: int, b: int)
    requires
        q > 0,
        is_round_sqrt(n, q, a),
        is_round_sqrt(n, q, b),
    ensures
        a == b,
{
    if a < b {
        lemma_round_sqrt_order(n, q, a, b);
    } else if b < a {
        lemma_round_sqrt_order(n, q, b, a);
    }
}

proof fn lemma_round_sqrt_order(n: int, q: int, a: int, b: int)
    requires
        q > 0,
        a < b,
        is_round_sqrt(n, q, a),
        is_round_sqrt(n, q, b),
    ensures
        b == a + 1,
        a % 2 == 0,
        b % 2 == 0,
{
    let x = 2 * b - 1;
    let y = 2 * a + 1;
    assert(x * x * q <= y * y * q);
    assert(x <= y) by (nonlinear_arith)
        requires
            x * x * q <= y * y * q,
            q > 0,
            x >= 0,
            y >= 0,
    ;
    assert(b == a + 1);
    assert(4 * n == y * y * q) by (nonlinear_arith)
        requires
            x == y,
            x * x * q <= 4 * n,
            4 * n <= y * y * q,
    ;
}

/// Largest number of steps per bullet, as an odd bound: the rounded root of `n / q`
/// exceeds `MAX_SMOOTHNESS` exactly when `4n >= (2 * MAX_SMOOTHNESS + 1)^2 * q`.
pub open spec fn smoothness_too_large(n: int, q: int) -> bool {
    4 * n >= (2 * MAX_SMOOTHNESS + 1) * (2 * MAX_SMOOTHNESS + 1) * q
}

/// Steps per bullet: the given smoothness, or else the square root of
/// `vertical * scope * multiplier` rounded to an integer, at least one.
pub open spec fn best_smoothness(s: RecoilSettings) -> Option<int> {
    match s.smoothness {
        Some(k) => Some(k as int),
        None => {
            let n = bullet_y_num(s);
            if n < 0 {
                None
            } else {
                let r = round_sqrt(n, y_den_of(s));
                Some(if r < 1 { 1 } else { r })
            }
        },
    }
}

/// The rounded square root of `n / q`, found by counting up; `None` where it exceeds
/// `MAX_SMOOTHNESS`.
fn rounded_root(n: i128, q: i128) -> (r: Option<i64>)
    requires
        0 <= n <= 0x1000_0000_0000_0000_0000_0000,
        1 <= q <= 1_000_000_000 * 32767,
    ensures
        r is None <==> smoothness_too_large(n as int, q as int),
        r matches Some(v) ==> 0 <= v <= MAX_SMOOTHNESS && v == round_sqrt(n as int, q as int),
{
    let lim: i128 = (2 * MAX_SMOOTHNESS as i128 + 1) * (2 * MAX_SMOOTHNESS as i128 + 1) * q;
    if 4 * n >= lim {
        return None;
    }
    let mut r: i64 = 0;
    while r < MAX_SMOOTHNESS && upper_square(r, q) < 4 * n
        invariant
            0 <= r <= MAX_SMOOTHNESS,
            1 <= q <= 1_000_000_000 * 32767,
            0 <= n <= 0x1000_0000_0000_0000_0000_0000,
            4 * n < (2 * MAX_SMOOTHNESS + 1) * (2 * MAX_SMOOTHNESS + 1) * q,
            r == 0 || (2 * r - 1) * (2 * r - 1) * q < 4 * n,
        decreases MAX_SMOOTHNESS - r,
    {
        proof {
            lemma_square_bound(r as int, q as int);
        }
        r = r + 1;
    }
    let up: i128 = upper_square(r, q);
    let v: i64 = if up == 4 * n && r % 2 == 1 {
        r + 1
    } else {
        r
    };
    proof {
        assert(4 * n <= up);
        if v == r + 1 {
            assert(r < MAX_SMOOTHNESS);
            assert((2 * v + 1) * (2 * v + 1) * q == up + (8 * r + 8) * q) by (nonlinear_arith)
                requires
                    v == r + 1,
                    up == (2 * r + 1) * (2 * r + 1) * q,
            ;
            assert((8 * r + 8) * q > 0) by (nonlinear_arith)
                requires
                    r >= 0,
                    q >= 1,
            ;
        }
        assert(is_round_sqrt(n as int, q as int, v as int));
        lemma_round_sqrt_unique(n as int, q as int, v as int, round_sqrt(n as int, q as int));
    }
    Some(v)
}

/// `(2r + 1)^2 * q`.
fn upper_square(r: i64, q: i128) -> (u: i128)
    requires
        0 <= r <= MAX_SMOOTHNESS,
        1 <= q <= 1_000_000_000 * 32767,
    ensures
        u == (2 * r + 1) * (2 * r + 1) * q,
        0 < u <= (2 * MAX_SMOOTHNESS + 1) * (2 * MAX_SMOOTHNESS + 1) * q,
{
    proof {
        lemma_square_bound(r as int, q as int);
    }
    let a: i128 = 2 * r as i128 + 1;
    assert(a * a <= 65535 * 65535) by (nonlinear_arith)
        requires
            1 <= a <= 65535,
    ;
    let a2: i128 = a * a;
    a2 * q
}

proof fn lemma_square_bound(r: int, q: int)
    requires
        0 <= r <= MAX_SMOOTHNESS,
        1 <= q <= 1_000_000_000 * 32767,
    ensures
        0 < (2 * r + 1) * (2 * r + 1) * q <= (2 * MAX_SMOOTHNESS + 1) * (2 * MAX_SMOOTHNESS + 1) * q,
        (2 * MAX_SMOOTHNESS + 1) * (2 * MAX_SMOOTHNESS + 1) * q <= 0x1_0000_0000_0000_0000_0000,
{
    assert(0 < (2 * r + 1) * (2 * r + 1) * q <= (2 * MAX_SMOOTHNESS + 1) * (2 * MAX_SMOOTHNESS + 1) * q) by (nonlinear_arith)
        requires
            0 <= r <= MAX_SMOOTHNESS,
            1 <= q,
    ;
    assert((2 * MAX_SMOOTHNESS + 1) * (2 * MAX_SMOOTHNESS + 1) * q <= 0x1_0000_0000_0000_0000_0000) by (nonlinear_arith)
        requires
            q <= 1_000_000_000 * 32767,
    ;
}

/// `(vertical * scope) ^ initial`, in billionths.
pub open spec fn first_power(s: RecoilSettings) -> Option<int> {
    match decimal_powd(base_mantissa(s), 6, s.initial as int, 3) {
        Some((m, sc)) => Some(round_div(m * 1_000_000_000, pow10(sc as nat))),
        None => None,
    }
}

/// `(vertical * scope) ^ initial * multiplier`, over `y_den_of(s)`.
pub open spec fn first_y_num(p: int, s: RecoilSettings) -> int {
    p * 20 * s.fov as int
}

/// Whether a bullet's movement `y / y_den` split into `bs` steps keeps each step
/// within `MAX_STEP`.
pub open spec fn step_fits(y: int, step_den: int) -> bool {
    -MAX_STEP * step_den <= y <= MAX_STEP * step_den
}

/// The error that the profile `s` is rejected with, checked in this order; `None` if
/// it is accepted.
pub open spec fn settings_error(s: RecoilSettings) -> Option<ProfileError> {
    if s.vertical == 0 {
        Some(ProfileError::NoVertical)
    } else if s.rpm <= 0 {
        Some(ProfileError::InvalidRpm)
    } else if s.sensitivity <= 0 {
        Some(ProfileError::InvalidSensitivity)
    } else if s.smoothness matches Some(k) && k <= 0 {
        Some(ProfileError::InvalidSmoothness)
    } else {
        match best_smoothness(s) {
            None => Some(ProfileError::SmoothnessUndefined),
            Some(bs) => if s.smoothness is None && smoothness_too_large(bullet_y_num(s), y_den_of(s)) {
                Some(ProfileError::SmoothnessOutOfRange)
            } else {
                match first_power(s) {
                    None => Some(ProfileError::PowerUndefined),
                    Some(p) => if p > MAX_POWER || p < -MAX_POWER {
                        Some(ProfileError::PowerOutOfRange)
                    } else if !step_fits(bullet_y_num(s), y_den_of(s) * bs) || !step_fits(
                        first_y_num(p, s),
                        y_den_of(s) * bs,
                    ) {
                        Some(ProfileError::StepOutOfRange)
                    } else {
                        None
                    },
                }
            },
        }
    }
}

/// What the engine derives from a profile once per run. Movements are exact
/// fractions: a bullet moves `bullet_y / y_den` units (`first_bullet_y / y_den` for
/// the first bullet of a burst), in `smoothness` steps; a step lasts
/// `MINUTE_NS / time_den` nanoseconds.
#[derive(Clone, Copy, Debug, PartialEq, Eq, Structural)]
pub struct RecoilSetup {
    pub bullet_y: i128,
    pub first_bullet_y: i128,
    pub y_den: i128,
    pub smoothness: i16,
    pub time_den: i128,
    pub mag_size: i16,
    pub global_overflow: bool,
    pub local_overflow: bool,
}

impl RecoilSetup {
    /// Denominator of one step's movement.
    pub open spec fn step_den(&self) -> int {
        self.y_den * self.smoothness
    }

    pub open spec fn wf(&self) -> bool {
        &&& 1 <= self.smoothness
        &&& 1 <= self.y_den <= 1_000_000_000 * 32767
        &&& 1 <= self.time_den <= 32767 * 32767
        &&& step_fits(self.bullet_y as int, self.step_den())
        &&& step_fits(self.first_bullet_y as int, self.step_den())
    }
}

/// Derives the engine's setup from a profile, or says why the profile is rejected.
pub fn prepare(s: &RecoilSettings) -> (r: Result<RecoilSetup, ProfileError>)
    ensures
        match r {
            Err(e) => settings_error(*s) == Some(e),
            Ok(st) => {
                &&& settings_error(*s) is None
                &&& st.wf()
                &&& best_smoothness(*s) == Some(st.smoothness as int)
                &&& st.bullet_y == bullet_y_num(*s)
                &&& first_power(*s) matches Some(p) && st.first_bullet_y == first_y_num(p, *s)
                &&& st.y_den == y_den_of(*s)
                &&& st.time_den == s.rpm as int * st.smoothness as int
                &&& st.mag_size == s.mag_size
                &&& st.global_overflow == s.global_overflow
                &&& st.local_overflow == s.local_overflow
            },
        },
{
    if s.vertical == 0 {
        return Err(ProfileError::NoVertical);
    }
    if s.rpm <= 0 {
        return Err(ProfileError::InvalidRpm);
    }
    if s.sensitivity <= 0 {
        return Err(ProfileError::InvalidSensitivity);
    }
    if let Some(k) = s.smoothness {
        if k <= 0 {
            return Err(ProfileError::InvalidSmoothness);
        }
    }
    proof {
        lemma_mul_bound(s.vertical as int, s.scope as int, 0x8000_0000, 0x8000_0000);
    }
    let base: i64 = s.vertical as i64 * s.scope as i64;
    let base20: i128 = base as i128 * 20_000;
    proof {
        lemma_mul_bound(base20 as int, s.fov as int, (0x4000_0000_0000_0000 * 20_000) as int, 0x8000);
    }
    let y_num: i128 = base20 * s.fov as i128;
    let sens: i128 = s.sensitivity as i128;
    let y_den: i128 = 1_000_000_000 * sens;
    let bs: i64 = match s.smoothness {
        Some(k) => k as i64,
        None => {
            if y_num < 0 {
                return Err(ProfileError::SmoothnessUndefined);
            }
            match rounded_root(y_num, y_den) {
                None => {
                    return Err(ProfileError::SmoothnessOutOfRange);
                },
                Some(v) => if v < 1 {
                    1
                } else {
                    v
                },
            }
        },
    };
    let (m, sc) = match powd_parts(base, 6, s.initial as i64, 3) {
        None => {
            return Err(ProfileError::PowerUndefined);
        },
        Some(v) => v,
    };
    let p10 = pow10_exec(sc);
    let pw = div_round(m * 1_000_000_000, p10);
    proof {
        lemma_round_div_magnitude(m * 1_000_000_000, p10 as int);
    }
    if pw > MAX_POWER || pw < -MAX_POWER {
        return Err(ProfileError::PowerOutOfRange);
    }
    proof {
        lemma_mul_bound(pw as int * 20, s.fov as int, MAX_POWER * 20, 0x8000);
    }
    let first_y: i128 = pw * 20 * s.fov as i128;
    assert(1 <= bs <= MAX_SMOOTHNESS);
    assert(1 <= sens <= 32767);
    proof {
        lemma_mul_bound(y_den as int, bs as int, 32767_000_000_000int, 32767);
    }
    let step_den: i128 = y_den * bs as i128;
    let lim: i128 = MAX_STEP * step_den;
    if y_num > lim || y_num < -lim || first_y > lim || first_y < -lim {
        return Err(ProfileError::StepOutOfRange);
    }
    proof {
        lemma_mul_bound(s.rpm as int, bs as int, 32767, 32767);
    }
    let time_den: i128 = s.rpm as i128 * bs as i128;
    assert(1 <= time_den <= 32767 * 32767) by (nonlinear_arith)
        requires
            time_den == s.rpm * bs,
            1 <= s.rpm <= 32767,
            1 <= bs <= 32767,
    ;
    Ok(RecoilSetup {
        bullet_y: y_num,
        first_bullet_y: first_y,
        y_den,
        smoothness: bs as i16,
        time_den,
        mag_size: s.mag_size,
        global_overflow: s.global_overflow,
        local_overflow: s.local_overflow,
    })
}

proof fn lemma_mul_bound(a: int, b: int, x: int, y: int)
    requires
        -x <= a <= x,
        -y <= b <= y,
    ensures
        -(x * y) <= a * b <= x * y,
{
    assert(-(x * y) <= a * b <= x * y) by (nonlinear_arith)
        requires
            -x <= a <= x,
            -y <= b <= y,
    ;
}

} // verus!
