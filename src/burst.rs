use vstd::prelude::*;

use crate::decimal::{div_round, lemma_round_div, lemma_round_div_unit, round_div};
use crate::recoil::{step_fits, RecoilSetup, MAX_STEP, MINUTE_NS, RESET_AFTER_US};
use crate::wire::MouseSnapshot;

verus! {

/// Bound on the timing carry, in `1 / time_den` nanoseconds.
pub const TIME_LIMIT: i128 = 0x10_0000_0000_0000_0000_0000_0000;

/// One step of a bullet whose step movement is `ly / d`, with sub-unit carry `carry`:
/// the emitted integer movement and the new carry. The step is rounded to the nearest
/// integer; with the local carry on, the rounding error is accumulated and, once it
/// reaches a whole unit, that unit is folded into the step.
pub open spec fn step_spec(ly: int, d: int, carry: int, local: bool) -> (int, int) {
    let si = round_div(ly, d);
    if !local {
        (si, carry)
    } else {
        let o = carry + (ly - si * d);
        if o >= d || o <= -d {
            let t = round_div(o, d);
            (si + t, o - t * d)
        } else {
            (si, o)
        }
    }
}

/// The first `n` steps of a bullet, and the carry after them.
pub open spec fn steps_spec(ly: int, d: int, local: bool, n: nat) -> (Seq<int>, int)
    decreases n,
{
    if n == 0 {
        (Seq::empty(), 0)
    } else {
        let prev = steps_spec(ly, d, local, (n - 1) as nat);
        let st = step_spec(ly, d, prev.1, local);
        (prev.0.push(st.0), st.1)
    }
}

pub open spec fn sum(s: Seq<int>) -> int
    decreases s.len(),
{
    if s.len() == 0 {
        0
    } else {
        sum(s.drop_last()) + s.last()
    }
}

/// Whole units moved from the global carry `g` into the next bullet: only with both
/// carries on, and only once `g` holds at least one unit.
pub open spec fn fold_amount(setup: RecoilSetup, g: int) -> int {
    if setup.global_overflow && setup.local_overflow && (g >= setup.step_den() || g <= -setup.step_den()) {
        round_div(g, setup.step_den())
    } else {
        0
    }
}

/// Movement of bullet number `bullet` before any carry, over `setup.y_den`.
pub open spec fn raw_bullet_y(setup: RecoilSetup, bullet: int) -> int {
    if bullet == 0 {
        setup.first_bullet_y as int
    } else {
        setup.bullet_y as int
    }
}

/// Movement of bullet number `bullet` with global carry `g` folded in, over `setup.y_den`
/// (equally: the movement of each of its steps, over `setup.step_den()`).
pub open spec fn bullet_y(setup: RecoilSetup, bullet: int, g: int) -> int {
    raw_bullet_y(setup, bullet) + fold_amount(setup, g) * setup.y_den
}

/// The steps of bullet number `bullet` fired with global carry `g`, and the local carry left.
pub open spec fn bullet_steps(setup: RecoilSetup, bullet: int, g: int) -> (Seq<int>, int) {
    steps_spec(bullet_y(setup, bullet, g), setup.step_den(), setup.local_overflow, setup.smoothness as nat)
}

/// The global carry after firing bullet number `bullet` with global carry `g`.
pub open spec fn carry_after(setup: RecoilSetup, bullet: int, g: int) -> int {
    g - fold_amount(setup, g) * setup.step_den() + bullet_steps(setup, bullet, g).1
}

pub open spec fn steps_fit(s: Seq<int>, ly: int, d: int) -> bool {
    forall|i: int|
        0 <= i < s.len() ==> -d <= #[trigger] s[i] * d - ly <= d && -32767 <= s[i] <= 32767
}

proof fn lemma_step(ly: int, d: int, carry: int, local: bool)
    requires
        d > 0,
        -d < carry < d,
        !local ==> carry == 0,
        -(MAX_STEP + 2) * d <= ly <= (MAX_STEP + 2) * d,
    ensures
        ({
            let (dy, c) = step_spec(ly, d, carry, local);
            &&& -d < c < d
            &&& !local ==> c == 0
            &&& local ==> dy * d + c == ly + carry
            &&& -d <= dy * d - ly <= d
            &&& -32767 <= dy <= 32767
        }),
{
    let si = round_div(ly, d);
    lemma_round_div(ly, d);
    assert(-(MAX_STEP + 3) <= si <= MAX_STEP + 3) by (nonlinear_arith)
        requires
            d > 0,
            2 * (ly - si * d) <= d,
            -d <= 2 * (ly - si * d),
            -(MAX_STEP + 2) * d <= ly <= (MAX_STEP + 2) * d,
    ;
    if local {
        let o = carry + (ly - si * d);
        if o >= d || o <= -d {
            lemma_round_div_unit(o, d);
            lemma_round_div(o, d);
            let t = round_div(o, d);
            assert((si + t) * d == si * d + t * d) by (nonlinear_arith);
            assert(t * d == d || t * d == -d);
        }
    }
}

proof fn lemma_steps(ly: int, d: int, local: bool, n: nat)
    requires
        d > 0,
        -(MAX_STEP + 2) * d <= ly <= (MAX_STEP + 2) * d,
    ensures
        ({
            let (s, c) = steps_spec(ly, d, local, n);
            &&& s.len() == n
            &&& -d < c < d
            &&& !local ==> c == 0
            &&& local ==> sum(s) * d + c == n * ly
            &&& steps_fit(s, ly, d)
        }),
    decreases n,
{
    if n > 0 {
        lemma_steps(ly, d, local, (n - 1) as nat);
        let (s, c) = steps_spec(ly, d, local, (n - 1) as nat);
        lemma_step(ly, d, c, local);
        let (dy, c2) = step_spec(ly, d, c, local);
        assert(s.push(dy).drop_last() =~= s);
        assert(sum(s.push(dy)) == sum(s) + dy);
        assert((sum(s) + dy) * d == sum(s) * d + dy * d) by (nonlinear_arith);
        assert(n * ly == (n - 1) * ly + ly) by (nonlinear_arith);
    }
}

/// The trigger condition: aim (right) and fire (left) both held.
pub open spec fn trigger_held_spec(b: MouseSnapshot) -> bool {
    b.left && b.right
}

/// Whether the buttons show the trigger condition.
pub fn trigger_held(b: MouseSnapshot) -> (r: bool)
    ensures
        r == trigger_held_spec(b),
{
    b.left && b.right
}

/// The engine's state across the bullets of one burst. `global_overflow_y` is the
/// carried sub-unit movement in `1 / step_den` units, `global_time_overflow` the
/// carried timing slip in `1 / time_den` nanoseconds, `released_since` the clock
/// reading (microseconds) at which the trigger was first seen released, while it is.
#[derive(Clone, Copy, Debug, PartialEq, Eq, Structural)]
pub struct BurstState {
    pub current_bullet: i16,
    pub global_overflow_y: i128,
    pub global_time_overflow: i128,
    pub released_since: Option<u64>,
}

impl BurstState {
    pub open spec fn wf(&self, setup: RecoilSetup) -> bool {
        let d = setup.step_den();
        let b = self.current_bullet as int;
        let g = self.global_overflow_y as int;
        &&& 0 <= b
        &&& b == 0 || b <= setup.mag_size
        &&& -(b * d) <= g <= b * d
        &&& setup.global_overflow && setup.local_overflow ==> -2 * d < g < 2 * d
        &&& -TIME_LIMIT <= self.global_time_overflow <= TIME_LIMIT
    }

    /// The state at the start of a run: no bullet fired, nothing carried.
    pub fn new() -> (r: Self)
        ensures
            r.current_bullet == 0 && r.global_overflow_y == 0 && r.global_time_overflow == 0
                && r.released_since is None,
    {
        BurstState { current_bullet: 0, global_overflow_y: 0, global_time_overflow: 0, released_since: None }
    }

    /// One observation of the device at clock reading `now_us` (microseconds, from a
    /// monotonic clock). While the trigger is held, fires the next bullet as
    /// `fire_bullet` does. While it is released, starts the release stopwatch, and
    /// once the trigger has stayed released for `RESET_AFTER_US` ends the burst as
    /// `observe_release` does.
    pub fn observe(&mut self, setup: &RecoilSetup, buttons: MouseSnapshot, now_us: u64) -> (r: Option<
        Vec<i16>,
    >)
        requires
            setup.wf(),
            old(self).wf(*setup),
        ensures
            final(self).wf(*setup),
            trigger_held_spec(buttons) ==> final(self).released_since is None,
            trigger_held_spec(buttons) && old(self).current_bullet >= setup.mag_size ==> r is None
                && final(self).current_bullet == old(self).current_bullet
                && final(self).global_overflow_y == old(self).global_overflow_y
                && final(self).global_time_overflow == old(self).global_time_overflow,
            trigger_held_spec(buttons) && old(self).current_bullet < setup.mag_size ==> r is Some,
            r matches Some(v) ==> v@.map_values(|x: i16| x as int) == bullet_steps(
                *setup,
                old(self).current_bullet as int,
                old(self).global_overflow_y as int,
            ).0,
            r is Some ==> trigger_held_spec(buttons) && final(self).current_bullet == old(self).current_bullet + 1
                && final(self).global_overflow_y == carry_after(
                *setup,
                old(self).current_bullet as int,
                old(self).global_overflow_y as int,
            ) && final(self).global_time_overflow == old(self).global_time_overflow,
            !trigger_held_spec(buttons) ==> r is None && ({
                let start = match old(self).released_since {
                    Some(t) => t as int,
                    None => now_us as int,
                };
                if now_us - start >= RESET_AFTER_US {
                    &&& final(self).current_bullet == 0
                    &&& final(self).global_overflow_y == 0
                    &&& final(self).global_time_overflow == 0
                    &&& final(self).released_since is None
                } else {
                    &&& final(self).current_bullet == old(self).current_bullet
                    &&& final(self).global_overflow_y == old(self).global_overflow_y
                    &&& final(self).global_time_overflow == old(self).global_time_overflow
                    &&& final(self).released_since == Some(start as u64)
                }
            }),
    {
        if trigger_held(buttons) {
            let r = self.fire_bullet(setup);
            self.released_since = None;
            return r;
        }
        let start: u64 = match self.released_since {
            Some(t) => t,
            None => now_us,
        };
        let released_for: u64 = if now_us >= start {
            now_us - start
        } else {
            0
        };
        if self.observe_release(released_for) {
            self.released_since = None;
        } else {
            self.released_since = Some(start);
        }
        None
    }

    /// Fires the next bullet while the trigger is held: the movements of its
    /// `setup.smoothness` steps, in order, or `None` once the magazine is spent.
    pub fn fire_bullet(&mut self, setup: &RecoilSetup) -> (r: Option<Vec<i16>>)
        requires
            setup.wf(),
            old(self).wf(*setup),
        ensures
            final(self).wf(*setup),
            old(self).current_bullet >= setup.mag_size ==> r is None && *final(self) == *old(self),
            old(self).current_bullet < setup.mag_size ==> r is Some,
            r matches Some(v) ==> v@.map_values(|x: i16| x as int) == bullet_steps(
                *setup,
                old(self).current_bullet as int,
                old(self).global_overflow_y as int,
            ).0,
            r is Some ==> final(self).current_bullet == old(self).current_bullet + 1
                && final(self).global_overflow_y == carry_after(
                *setup,
                old(self).current_bullet as int,
                old(self).global_overflow_y as int,
            ) && final(self).global_time_overflow == old(self).global_time_overflow
                && final(self).released_since == old(self).released_since,
    {
        if self.current_bullet >= setup.mag_size {
            return None;
        }
        let ghost b = self.current_bullet as int;
        let ghost g0 = self.global_overflow_y as int;
        proof {
            lemma_mul_nonneg_bound(setup.y_den as int, setup.smoothness as int, 32767_000_000_000, 32767);
            lemma_mul_nonneg_bound(b, setup.step_den(), 32767, (32767_000_000_000 * 32767) as int);
        }
        let d: i128 = setup.y_den * setup.smoothness as i128;
        proof {
            lemma_step_den(*setup);
        }
        let mut ly: i128 = if self.current_bullet == 0 {
            setup.first_bullet_y
        } else {
            setup.bullet_y
        };
        if setup.global_overflow && setup.local_overflow && (self.global_overflow_y >= d
            || self.global_overflow_y <= -d) {
            let t = div_round(self.global_overflow_y, d);
            proof {
                lemma_round_div(g0, d as int);
                assert(-2 <= t <= 2) by (nonlinear_arith)
                    requires
                        d > 0,
                        -2 * d < g0 < 2 * d,
                        2 * (g0 - t * d) <= d,
                        -d <= 2 * (g0 - t * d),
                ;
                assert(-2 * d <= t * d <= 2 * d) by (nonlinear_arith)
                    requires
                        -2 <= t <= 2,
                        d > 0,
                ;
                lemma_step_den(*setup);
                assert(-2 * setup.y_den <= t * setup.y_den <= 2 * setup.y_den) by (nonlinear_arith)
                    requires
                        -2 <= t <= 2,
                        setup.y_den > 0,
                ;
            }
            self.global_overflow_y = self.global_overflow_y - t * d;
            ly = ly + t * setup.y_den;
        }
        assert(ly == bullet_y(*setup, b, g0));
        assert(-2 * d <= fold_amount(*setup, g0) * setup.y_den <= 2 * d);
        assert(-(MAX_STEP + 2) * d <= ly <= (MAX_STEP + 2) * d) by (nonlinear_arith)
            requires
                ly == raw_bullet_y(*setup, b) + fold_amount(*setup, g0) * setup.y_den,
                step_fits(raw_bullet_y(*setup, b), d as int),
                -2 * d <= fold_amount(*setup, g0) * setup.y_den <= 2 * d,
        ;
        let ghost g1 = self.global_overflow_y as int;
        assert(g1 == g0 - fold_amount(*setup, g0) * d);
        assert(d <= 32767_000_000_000 * 32767);
        assert(-0x1_0000_0000_0000_0000_0000 <= ly <= 0x1_0000_0000_0000_0000_0000) by (nonlinear_arith)
            requires
                0 < d <= 32767_000_000_000 * 32767,
                -0x1_0000_0000_0000_0000_0000 <= ly <= 0x1_0000_0000_0000_0000_0000,
                -(MAX_STEP + 2) * d <= ly <= (MAX_STEP + 2) * d,
        ;
        let mut steps: Vec<i16> = Vec::new();
        let mut carry: i128 = 0;
        let mut i: i16 = 0;
        while i < setup.smoothness
            invariant
                0 <= i <= setup.smoothness,
                setup.wf(),
                d == setup.step_den(),
                0 < d <= 32767_000_000_000 * 32767,
                -0x1_0000_0000_0000_0000_0000 <= ly <= 0x1_0000_0000_0000_0000_0000,
                -(MAX_STEP + 2) * d <= ly <= (MAX_STEP + 2) * d,
                -d < carry < d,
                steps@.map_values(|x: i16| x as int) == steps_spec(ly as int, d as int, setup.local_overflow, i as nat).0,
                carry == steps_spec(ly as int, d as int, setup.local_overflow, i as nat).1,
            decreases setup.smoothness - i,
        {
            proof {
                lemma_steps(ly as int, d as int, setup.local_overflow, i as nat);
                lemma_step(ly as int, d as int, carry as int, setup.local_overflow);
                lemma_round_div(ly as int, d as int);
            }
            let si = div_round(ly, d);
            assert(-(MAX_STEP + 3) * d <= si * d <= (MAX_STEP + 3) * d) by (nonlinear_arith)
                requires
                    d > 0,
                    2 * (ly - si * d) <= d,
                    -d <= 2 * (ly - si * d),
                    -(MAX_STEP + 2) * d <= ly <= (MAX_STEP + 2) * d,
            ;
            assert(-0x1_0000_0000_0000_0000_0000 <= si * d <= 0x1_0000_0000_0000_0000_0000) by (nonlinear_arith)
                requires
                    0 < d <= 32767_000_000_000 * 32767,
                    -(MAX_STEP + 3) * d <= si * d <= (MAX_STEP + 3) * d,
            ;
            let mut dy: i128 = si;
            if setup.local_overflow {
                let o = carry + (ly - si * d);
                if o >= d || o <= -d {
                    proof {
                        lemma_round_div_unit(o as int, d as int);
                    }
                    let t = div_round(o, d);
                    carry = o - t * d;
                    dy = si + t;
                } else {
                    carry = o;
                }
            }
            let ghost prev = steps@.map_values(|x: i16| x as int);
            steps.push(dy as i16);
            assert(steps@.map_values(|x: i16| x as int) =~= prev.push(dy as int));
            i = i + 1;
        }
        proof {
            lemma_steps(ly as int, d as int, setup.local_overflow, setup.smoothness as nat);
            lemma_round_div(g0, d as int);
            assert((b + 1) * d == b * d + d) by (nonlinear_arith);
        }
        self.global_overflow_y = self.global_overflow_y + carry;
        self.current_bullet = self.current_bullet + 1;
        Some(steps)
    }

    /// Records that the trigger has been released for `released_for_us` microseconds.
    /// After `RESET_AFTER_US` the burst is over: the bullet count and both carries go
    /// back to zero. Returns whether that happened.
    pub fn observe_release(&mut self, released_for_us: u64) -> (reset: bool)
        ensures
            reset == (released_for_us >= RESET_AFTER_US),
            reset ==> final(self).current_bullet == 0 && final(self).global_overflow_y == 0
                && final(self).global_time_overflow == 0
                && final(self).released_since == old(self).released_since,
            !reset ==> *final(self) == *old(self),
    {
        if released_for_us >= RESET_AFTER_US {
            self.current_bullet = 0;
            self.global_overflow_y = 0;
            self.global_time_overflow = 0;
            true
        } else {
            false
        }
    }

    /// Hands the carried timing slip to the pacer of the bullet about to be fired.
    pub fn start_pacing(&mut self) -> (p: StepPacer)
        ensures
            p.time_overflow == old(self).global_time_overflow,
            final(self).global_time_overflow == 0,
            final(self).current_bullet == old(self).current_bullet,
            final(self).global_overflow_y == old(self).global_overflow_y,
            final(self).released_since == old(self).released_since,
    {
        let p = StepPacer { time_overflow: self.global_time_overflow };
        self.global_time_overflow = 0;
        p
    }

    /// Takes back the timing slip left by the last step of a bullet.
    pub fn finish_pacing(&mut self, p: &StepPacer)
        requires
            -TIME_LIMIT <= p.time_overflow <= TIME_LIMIT,
        ensures
            final(self).global_time_overflow == p.time_overflow,
            final(self).current_bullet == old(self).current_bullet,
            final(self).global_overflow_y == old(self).global_overflow_y,
            final(self).released_since == old(self).released_since,
    {
        self.global_time_overflow = p.time_overflow;
    }
}

/// A step's denominator is positive and at least the bullet's.
proof fn lemma_step_den(setup: RecoilSetup)
    requires
        setup.wf(),
    ensures
        0 < setup.y_den <= setup.step_den(),
{
    assert(setup.y_den <= setup.y_den * setup.smoothness) by (nonlinear_arith)
        requires
            setup.y_den >= 1,
            setup.smoothness >= 1,
    ;
}

proof fn lemma_mul_nonneg_bound(a: int, b: int, x: int, y: int)
    requires
        0 <= a <= x,
        0 <= b <= y,
    ensures
        0 <= a * b <= x * y,
{
    assert(0 <= a * b <= x * y) by (nonlinear_arith)
        requires
            0 <= a <= x,
            0 <= b <= y,
    ;
}

/// How long, in whole nanoseconds, a step waits when it carries the slip `carry`
/// (in `1 / time_den` nanoseconds): the step delay less the slip, cut to an integer,
/// and nothing once the slip exceeds the delay.
pub open spec fn pace_target(carry: int, time_den: int) -> int {
    if MINUTE_NS - carry <= 0 {
        0
    } else {
        (MINUTE_NS - carry) / time_den
    }
}

/// Paces the steps of one bullet against a monotonic clock.
#[derive(Clone, Copy, Debug, PartialEq, Eq, Structural)]
pub struct StepPacer {
    /// Slip of the last step against the step delay, in `1 / time_den` nanoseconds.
    pub time_overflow: i128,
}

impl StepPacer {
    /// Nanoseconds after its start at which the current step may end.
    pub fn target_ns(&self, setup: &RecoilSetup) -> (r: u128)
        requires
            setup.wf(),
            -TIME_LIMIT <= self.time_overflow <= TIME_LIMIT,
        ensures
            r == pace_target(self.time_overflow as int, setup.time_den as int),
    {
        let rest: i128 = MINUTE_NS - self.time_overflow;
        if rest <= 0 {
            0
        } else {
            (rest as u128) / (setup.time_den as u128)
        }
    }

    /// Called with the time since the current step began: true once the step may
    /// end, and then the slip becomes the old slip plus `elapsed_ns` less the step
    /// delay, that is, how far the step ran past its target (held within `TIME_LIMIT`).
    pub fn try_complete(&mut self, setup: &RecoilSetup, elapsed_ns: u64) -> (done: bool)
        requires
            setup.wf(),
            -TIME_LIMIT <= old(self).time_overflow <= TIME_LIMIT,
        ensures
            done == (elapsed_ns >= pace_target(old(self).time_overflow as int, setup.time_den as int)),
            done ==> final(self).time_overflow == next_carry(
                old(self).time_overflow as int,
                elapsed_ns as int,
                setup.time_den as int,
            ),
            !done ==> *final(self) == *old(self),
            -TIME_LIMIT <= final(self).time_overflow <= TIME_LIMIT,
    {
        let target = self.target_ns(setup);
        if (elapsed_ns as u128) < target {
            return false;
        }
        proof {
            lemma_mul_nonneg_bound(elapsed_ns as int, setup.time_den as int, 0x1_0000_0000_0000_0000, (32767 * 32767) as int);
        }
        let c: i128 = self.time_overflow + (elapsed_ns as i128 * setup.time_den - MINUTE_NS);
        self.time_overflow = if c > TIME_LIMIT {
            TIME_LIMIT
        } else if c < -TIME_LIMIT {
            -TIME_LIMIT
        } else {
            c
        };
        true
    }
}

/// The slip after a step of `elapsed` nanoseconds that started with slip `carry`
/// (both in `1 / time_den` nanoseconds): the old slip plus the elapsed time less the
/// step delay, held within `TIME_LIMIT`.
pub open spec fn next_carry(carry: int, elapsed: int, time_den: int) -> int {
    let c = carry + elapsed * time_den - MINUTE_NS;
    if c > TIME_LIMIT {
        TIME_LIMIT as int
    } else if c < -TIME_LIMIT {
        -TIME_LIMIT
    } else {
        c
    }
}

/// Emitted movement, raw movement (over `y_den`) and global carry after the first `k`
/// bullets of a burst started from rest.
pub open spec fn burst_run(setup: RecoilSetup, k: nat) -> (int, int, int)
    decreases k,
{
    if k == 0 {
        (0, 0, 0)
    } else {
        let (e, raw, g) = burst_run(setup, (k - 1) as nat);
        let b = k - 1;
        (e + sum(bullet_steps(setup, b, g).0), raw + raw_bullet_y(setup, b), carry_after(setup, b, g))
    }
}

proof fn lemma_bullet_y_bound(setup: RecoilSetup, bullet: int, g: int)
    requires
        setup.wf(),
        setup.global_overflow && setup.local_overflow ==> -2 * setup.step_den() < g < 2 * setup.step_den(),
    ensures
        -(MAX_STEP + 2) * setup.step_den() <= bullet_y(setup, bullet, g) <= (MAX_STEP + 2) * setup.step_den(),
        -2 <= fold_amount(setup, g) <= 2,
{
    let d = setup.step_den();
    lemma_step_den(setup);
    let t = fold_amount(setup, g);
    if t != 0 {
        lemma_round_div(g, d);
        assert(-2 <= t <= 2) by (nonlinear_arith)
            requires
                d > 0,
                -2 * d < g < 2 * d,
                2 * (g - t * d) <= d,
                -d <= 2 * (g - t * d),
        ;
    }
    assert(-2 * d <= t * setup.y_den <= 2 * d) by (nonlinear_arith)
        requires
            -2 <= t <= 2,
            0 < setup.y_den <= d,
    ;
    assert(-(MAX_STEP + 2) * d <= bullet_y(setup, bullet, g) <= (MAX_STEP + 2) * d) by (nonlinear_arith)
        requires
            bullet_y(setup, bullet, g) == raw_bullet_y(setup, bullet) + t * setup.y_den,
            step_fits(raw_bullet_y(setup, bullet), d),
            -2 * d <= t * setup.y_den <= 2 * d,
    ;
}

/// Every bullet is emitted in exactly `smoothness` steps, and each step is within one
/// unit of the bullet's movement divided by `smoothness`. With the local carry on, the
/// steps of a bullet add up to its movement to within one unit.
pub proof fn lemma_bullet_steps(setup: RecoilSetup, bullet: int, g: int)
    requires
        setup.wf(),
        setup.global_overflow && setup.local_overflow ==> -2 * setup.step_den() < g < 2 * setup.step_den(),
    ensures
        ({
            let (s, c) = bullet_steps(setup, bullet, g);
            let ly = bullet_y(setup, bullet, g);
            let d = setup.step_den();
            &&& s.len() == setup.smoothness
            &&& forall|i: int| 0 <= i < s.len() ==> -d <= #[trigger] s[i] * d - ly <= d
            &&& setup.local_overflow ==> sum(s) * d + c == setup.smoothness * ly
            &&& setup.local_overflow ==> -d < sum(s) * d - setup.smoothness * ly < d
        }),
{
    lemma_bullet_y_bound(setup, bullet, g);
    lemma_step_den(setup);
    lemma_steps(bullet_y(setup, bullet, g), setup.step_den(), setup.local_overflow, setup.smoothness as nat);
}

/// With both carries on, over the first `k` bullets of a burst started from rest, the
/// emitted movement plus the global carry equals exactly the sum of the bullets' raw
/// movements; the carry stays under two units, so the emitted total is within two units
/// of the raw total.
pub proof fn lemma_magazine_total(setup: RecoilSetup, k: nat)
    requires
        setup.wf(),
        setup.global_overflow,
        setup.local_overflow,
    ensures
        ({
            let (e, raw, g) = burst_run(setup, k);
            let d = setup.step_den();
            &&& e * d + g == setup.smoothness * raw
            &&& -2 * d < g < 2 * d
            &&& -2 * d < e * d - setup.smoothness * raw < 2 * d
        }),
    decreases k,
{
    let d = setup.step_den();
    lemma_step_den(setup);
    if k > 0 {
        lemma_magazine_total(setup, (k - 1) as nat);
        let (e, raw, g) = burst_run(setup, (k - 1) as nat);
        let b = k - 1;
        lemma_bullet_steps(setup, b, g);
        lemma_bullet_y_bound(setup, b, g);
        let (s, c) = bullet_steps(setup, b, g);
        let t = fold_amount(setup, g);
        let ly = bullet_y(setup, b, g);
        lemma_steps(ly, d, true, setup.smoothness as nat);
        assert(setup.smoothness * ly == setup.smoothness * raw_bullet_y(setup, b) + t * d) by (nonlinear_arith)
            requires
                ly == raw_bullet_y(setup, b) + t * setup.y_den,
                d == setup.y_den * setup.smoothness,
        ;
        assert((e + sum(s)) * d == e * d + sum(s) * d) by (nonlinear_arith);
        assert(burst_run(setup, k) == (e + sum(s), raw + raw_bullet_y(setup, b), carry_after(setup, b, g)));
        assert(carry_after(setup, b, g) == g - t * d + c);
        assert(sum(s) * d + c == setup.smoothness * ly);
        assert(-d < c < d);
        if g >= d || g <= -d {
            assert(t == round_div(g, d));
            lemma_round_div(g, d);
            assert(-d <= 2 * (g - t * d) <= d);
        } else {
            assert(t == 0);
            assert(t * d == 0);
        }
        assert(setup.smoothness * (raw + raw_bullet_y(setup, b)) == setup.smoothness * raw
            + setup.smoothness * raw_bullet_y(setup, b)) by (nonlinear_arith);
        let e2 = e + sum(s);
        let raw2 = raw + raw_bullet_y(setup, b);
        let g2 = g - t * d + c;
        assert(e2 * d + g2 == setup.smoothness * raw2);
        assert(-2 * d < g2 < 2 * d);
    } else {
        assert(burst_run(setup, k) == (0int, 0int, 0int));
        assert(0 * d == 0 && setup.smoothness * 0 == 0);
    }
}

/// The slip after the run `es` (elapsed nanoseconds per step) that started with slip `carry0`.
pub open spec fn run_carry(es: Seq<int>, carry0: int, time_den: int) -> int
    decreases es.len(),
{
    if es.len() == 0 {
        carry0
    } else {
        next_carry(run_carry(es.drop_last(), carry0, time_den), es.last(), time_den)
    }
}

/// Every step of the run `es` ended at its pacing target or at most `overshoot`
/// nanoseconds after it, except step `late_step`, which may end `extra` nanoseconds
/// later still.
pub open spec fn paced_run(es: Seq<int>, carry0: int, time_den: int, overshoot: int, late_step: int, extra: int) -> bool {
    forall|i: int| 0 <= i < es.len() ==> #[trigger] step_paced(es, carry0, time_den, overshoot, late_step, extra, i)
}

pub open spec fn step_paced(
    es: Seq<int>,
    carry0: int,
    time_den: int,
    overshoot: int,
    late_step: int,
    extra: int,
    i: int,
) -> bool {
    let t = pace_target(run_carry(es.subrange(0, i), carry0, time_den), time_den);
    let o = if i == late_step { overshoot + extra } else { overshoot };
    t <= es[i] <= t + o
}

/// Timing converges: over a paced run of `N` steps, each ending at most `overshoot`
/// nanoseconds after its target (at most one step delay `MINUTE_NS / time_den`), except
/// one step that may end `extra` nanoseconds later still, the total time telescopes
/// to `N` step delays plus the final slip less the initial one. The final slip lies
/// above minus one nanosecond (targets are whole nanoseconds) and at most
/// `overshoot + extra` nanoseconds; so from a run that starts without slip the mean
/// step interval is the step delay to within `(overshoot + extra) / N` nanoseconds
/// above and `1 / N` below.
pub proof fn lemma_pacing_mean(
    es: Seq<int>,
    carry0: int,
    time_den: int,
    overshoot: int,
    late_step: int,
    extra: int,
)
    requires
        1 <= time_den <= 32767 * 32767,
        -TIME_LIMIT <= carry0 <= overshoot * time_den,
        0 <= overshoot,
        0 <= extra,
        overshoot * time_den <= MINUTE_NS,
        (overshoot + extra) * time_den <= TIME_LIMIT,
        paced_run(es, carry0, time_den, overshoot, late_step, extra),
    ensures
        sum(es) * time_den == es.len() * MINUTE_NS + run_carry(es, carry0, time_den) - carry0,
        -TIME_LIMIT <= run_carry(es, carry0, time_den) <= (overshoot + extra) * time_den,
        late_step >= es.len() ==> run_carry(es, carry0, time_den) <= overshoot * time_den,
        es.len() > 0 ==> -time_den < run_carry(es, carry0, time_den),
    decreases es.len(),
{
    let bt = overshoot * time_den;
    let ht = (overshoot + extra) * time_den;
    assert(bt <= ht) by (nonlinear_arith)
        requires
            bt == overshoot * time_den,
            ht == (overshoot + extra) * time_den,
            extra >= 0,
            time_den >= 1,
    ;
    if es.len() > 0 {
        let n = es.len() as int;
        let i = n - 1;
        let pre = es.drop_last();
        assert forall|k: int| 0 <= k < pre.len() implies #[trigger] step_paced(
            pre,
            carry0,
            time_den,
            overshoot,
            late_step,
            extra,
            k,
        ) by {
            assert(step_paced(es, carry0, time_den, overshoot, late_step, extra, k));
            assert(pre.subrange(0, k) =~= es.subrange(0, k));
        }
        lemma_pacing_mean(pre, carry0, time_den, overshoot, late_step, extra);
        let c = run_carry(pre, carry0, time_den);
        let e = es[i];
        assert(step_paced(es, carry0, time_den, overshoot, late_step, extra, i));
        assert(es.subrange(0, i) =~= pre);
        let t = pace_target(c, time_den);
        let o = if i == late_step { overshoot + extra } else { overshoot };
        assert(t <= e <= t + o);
        let raw = c + e * time_den - MINUTE_NS;
        assert(o * time_den == if i == late_step { ht } else { bt });
        if c < MINUTE_NS {
            let q = (MINUTE_NS - c) / time_den;
            vstd::arithmetic::div_mod::lemma_fundamental_div_mod(MINUTE_NS - c, time_den);
            vstd::arithmetic::div_mod::lemma_mod_pos_bound(MINUTE_NS - c, time_den);
            assert(t == q);
            assert(-time_den < raw <= o * time_den) by (nonlinear_arith)
                requires
                    raw == c + e * time_den - MINUTE_NS,
                    MINUTE_NS - c == time_den * q + (MINUTE_NS - c) % time_den,
                    0 <= (MINUTE_NS - c) % time_den < time_den,
                    q <= e <= q + o,
                    time_den >= 1,
            ;
        } else {
            assert(t == 0);
            assert(0 <= e * time_den <= o * time_den) by (nonlinear_arith)
                requires
                    0 <= e <= o,
                    time_den >= 1,
            ;
            if i == late_step {
                assert(c <= bt);
                assert(raw <= ht);
            } else {
                assert(raw <= c);
            }
        }
        assert(next_carry(c, e, time_den) == raw);
        assert(run_carry(es, carry0, time_den) == raw);
        assert(sum(es) == sum(pre) + e);
        assert(sum(es) * time_den == sum(pre) * time_den + e * time_den) by (nonlinear_arith)
            requires
                sum(es) == sum(pre) + e,
        ;
        assert(n * MINUTE_NS == (n - 1) * MINUTE_NS + MINUTE_NS) by (nonlinear_arith);
    }
}

} // verus!
