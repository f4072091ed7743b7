use helious::burst::{BurstState, StepPacer};
use helious::recoil::{prepare, ProfileError, RecoilSettings, RecoilSetup};

fn profile(vertical: i32) -> RecoilSettings {
    RecoilSettings { vertical, ..RecoilSettings::default() }
}

fn setup_of(s: &RecoilSettings) -> RecoilSetup {
    prepare(s).expect("accepted profile")
}

#[test]
fn default_profile_values() {
    let d = RecoilSettings::default();
    assert_eq!(d.vertical, 0);
    assert_eq!(d.rpm, 500);
    assert_eq!(d.mag_size, 30);
    assert_eq!(d.fov, 120);
    assert_eq!(d.sensitivity, 100);
    assert_eq!(d.smoothness, None);
    assert_eq!(d.scope, 1000);
    assert!(!d.global_overflow && !d.local_overflow);
}

#[test]
fn setup_formulas() {
    // vertical 2.0, scope 1.0, multiplier 120 * 0.2 / 1.0 = 24: a bullet moves 48 units
    let st = setup_of(&profile(2000));
    assert_eq!(st.bullet_y / st.y_den, 48);
    assert_eq!(st.bullet_y % st.y_den, 0);
    // initial exponent 0: the first bullet moves 2^0 * 24 units
    assert_eq!(st.first_bullet_y, 24 * st.y_den);
    // round(sqrt(48)) = 7 steps
    assert_eq!(st.smoothness, 7);
    // 500 rpm: 120 ms per bullet, 120/7 ms per step
    assert_eq!(st.time_den, 500 * 7);
}

#[test]
fn derived_smoothness_rounds_and_clamps() {
    // vertical 0.001 * multiplier 24: sqrt(0.024) rounds to 0, clamped to 1
    assert_eq!(setup_of(&profile(1)).smoothness, 1);
    // vertical 6.0: sqrt(6 * 24) = 12
    assert_eq!(setup_of(&profile(6000)).smoothness, 12);
}

#[test]
fn first_bullet_power() {
    let s = RecoilSettings { vertical: 4000, initial: 1500, ..RecoilSettings::default() };
    let st = setup_of(&s);
    // 4^1.5 = 8, times 24
    let y = st.first_bullet_y as f64 / st.y_den as f64;
    assert!((y - 192.0).abs() < 1e-3, "{y}");
}

#[test]
fn given_smoothness_is_used() {
    let s = RecoilSettings { vertical: 2000, smoothness: Some(3), ..RecoilSettings::default() };
    assert_eq!(setup_of(&s).smoothness, 3);
}

#[test]
fn profile_errors() {
    assert_eq!(prepare(&RecoilSettings::default()), Err(ProfileError::NoVertical));
    assert_eq!(prepare(&RecoilSettings { rpm: 0, ..profile(2000) }), Err(ProfileError::InvalidRpm));
    assert_eq!(prepare(&RecoilSettings { rpm: -5, ..profile(2000) }), Err(ProfileError::InvalidRpm));
    assert_eq!(
        prepare(&RecoilSettings { sensitivity: 0, ..profile(2000) }),
        Err(ProfileError::InvalidSensitivity)
    );
    assert_eq!(
        prepare(&RecoilSettings { smoothness: Some(0), ..profile(2000) }),
        Err(ProfileError::InvalidSmoothness)
    );
    // negative movement has no square root
    assert_eq!(prepare(&profile(-2000)), Err(ProfileError::SmoothnessUndefined));
    // sqrt(2,000,000 * 1000 * 24) is far above the largest smoothness
    assert_eq!(
        prepare(&RecoilSettings { vertical: 2_000_000_000, scope: 1_000_000, ..RecoilSettings::default() }),
        Err(ProfileError::SmoothnessOutOfRange)
    );
    // 2,000,000 ^ 30 overflows rust_decimal
    assert_eq!(
        prepare(&RecoilSettings {
            vertical: 2_000_000_000,
            initial: 30_000,
            smoothness: Some(1),
            ..RecoilSettings::default()
        }),
        Err(ProfileError::PowerUndefined)
    );
    // 1000 ^ 7 = 10^21 is above the power limit
    assert_eq!(
        prepare(&RecoilSettings {
            vertical: 1_000_000,
            initial: 7_000,
            smoothness: Some(1),
            ..RecoilSettings::default()
        }),
        Err(ProfileError::PowerOutOfRange)
    );
    // 100,000 * 24 units in one step cannot be an i16 movement
    assert_eq!(
        prepare(&RecoilSettings { vertical: 100_000_000, smoothness: Some(1), ..RecoilSettings::default() }),
        Err(ProfileError::StepOutOfRange)
    );
}

#[test]
fn steps_without_carry() {
    let st = setup_of(&profile(2000));
    let mut b = BurstState::new();
    // first bullet: 24 units in 7 steps of 3.43, each rounded to 3
    assert_eq!(b.fire_bullet(&st), Some(vec![3; 7]));
    // later bullets: 48 units, 6.86 per step
    assert_eq!(b.fire_bullet(&st), Some(vec![7; 7]));
    assert_eq!(b.current_bullet, 2);
    assert_eq!(b.global_overflow_y, 0);
}

#[test]
fn local_carry_recovers_fractions() {
    let s = RecoilSettings { local_overflow: true, ..profile(2000) };
    let st = setup_of(&s);
    let mut b = BurstState::new();
    let steps = b.fire_bullet(&st).unwrap();
    assert_eq!(steps, vec![3, 3, 4, 3, 4, 3, 4]);
    assert_eq!(steps.iter().map(|&x| x as i32).sum::<i32>(), 24);
    let steps = b.fire_bullet(&st).unwrap();
    assert_eq!(steps.len(), 7);
    assert_eq!(steps.iter().map(|&x| x as i32).sum::<i32>(), 48);
}

#[test]
fn magazine_runs_out_until_reset() {
    let s = RecoilSettings { mag_size: 2, ..profile(2000) };
    let st = setup_of(&s);
    let mut b = BurstState::new();
    assert!(b.fire_bullet(&st).is_some());
    assert!(b.fire_bullet(&st).is_some());
    assert_eq!(b.fire_bullet(&st), None);
    assert_eq!(b.fire_bullet(&st), None);
    assert!(!b.observe_release(249));
    assert_eq!(b.fire_bullet(&st), None);
    assert!(b.observe_release(250));
    assert_eq!(b.fire_bullet(&st), Some(vec![3; 7]));
}

#[test]
fn reset_clears_carries() {
    let s = RecoilSettings { local_overflow: true, ..profile(2100) };
    let st = setup_of(&s);
    let mut b = BurstState::new();
    b.fire_bullet(&st).unwrap();
    let mut p = b.start_pacing();
    assert!(p.try_complete(&st, 99_000_000));
    b.finish_pacing(&p);
    assert_ne!(b.global_time_overflow, 0);
    assert!(!b.observe_release(10));
    assert_eq!(b.current_bullet, 1);
    assert!(b.observe_release(1000));
    assert_eq!(b.current_bullet, 0);
    assert_eq!(b.global_overflow_y, 0);
    assert_eq!(b.global_time_overflow, 0);
}

#[test]
fn magazine_total_with_both_carries() {
    // 2.1 * 24 = 50.4 units per bullet, 7 steps
    let s = RecoilSettings {
        vertical: 2100,
        initial: 1000,
        local_overflow: true,
        global_overflow: true,
        ..RecoilSettings::default()
    };
    let st = setup_of(&s);
    let mut b = BurstState::new();
    let mut total: i64 = 0;
    while let Some(steps) = b.fire_bullet(&st) {
        assert_eq!(steps.len(), 7);
        total += steps.iter().map(|&x| x as i64).sum::<i64>();
    }
    let raw = 30.0 * 50.4;
    assert!((total as f64 - raw).abs() < 2.0, "{total}");
}

#[test]
fn pacing_targets_and_carry() {
    let st = setup_of(&profile(2000));
    // step delay 60e9 / 3500 = 17142857.14 ns
    let mut p = StepPacer { time_overflow: 0 };
    assert_eq!(p.target_ns(&st), 17_142_857);
    assert!(!p.try_complete(&st, 17_142_856));
    assert_eq!(p.time_overflow, 0);
    assert!(p.try_complete(&st, 17_142_857));
    assert_eq!(p.time_overflow, 17_142_857 * 3500 - 60_000_000_000);
    // a late step shortens the next one
    assert!(p.try_complete(&st, 17_200_000));
    assert_eq!(p.time_overflow, 17_200_000 * 3500 - 60_000_000_000 - 500);
    assert_eq!(p.target_ns(&st), 17_085_714);
    // a slip beyond the whole delay leaves nothing to wait
    assert!(p.try_complete(&st, 40_000_000));
    assert_eq!(p.time_overflow, 40_000_000 * 3500 - 60_000_000_000 + 17_200_000 * 3500 - 60_000_000_000 - 500);
    assert_eq!(p.target_ns(&st), 0);
}

#[test]
fn simulated_clock_mean_converges() {
    let st = setup_of(&profile(2000));
    let delay = 60_000_000_000f64 / 3500.0;
    let mut p = StepPacer { time_overflow: 0 };
    let mut total: u64 = 0;
    let n = 200;
    for i in 0..n {
        // the clock overshoots each target by a varying 0..=3000 ns
        let elapsed = p.target_ns(&st) as u64 + ((i * 7919) % 3001) as u64;
        assert!(p.try_complete(&st, elapsed));
        total += elapsed;
    }
    let mean = total as f64 / n as f64;
    // total = n * delay + final slip, the slip within (-1, 3000] ns
    assert!(mean - delay > -1.0 / n as f64 - 1e-6 && mean - delay <= 3000.0 / n as f64 + 1e-6, "{mean}");
}

#[test]
fn steady_lateness_does_not_drift() {
    let st = setup_of(&profile(2000));
    let mut p = StepPacer { time_overflow: 0 };
    let mut total: u64 = 0;
    let n: u64 = 1000;
    for _ in 0..n {
        // every step ends 5000 ns after its target
        let elapsed = p.target_ns(&st) as u64 + 5000;
        assert!(p.try_complete(&st, elapsed));
        total += elapsed;
    }
    let ideal = n as i128 * 60_000_000_000 / 3500;
    let drift = total as i128 - ideal;
    assert!(drift >= -1 && drift <= 5001, "{drift}");
}

#[test]
fn large_slip_ends_next_step_at_once() {
    let st = setup_of(&profile(2000));
    let mut p = StepPacer { time_overflow: 0 };
    assert!(p.try_complete(&st, 50_000_000));
    assert_eq!(p.target_ns(&st), 0);
    assert!(p.try_complete(&st, 0));
    // the slip shrinks by one step delay per immediate step
    assert_eq!(p.time_overflow, 50_000_000 * 3500 - 2 * 60_000_000_000);
}

#[test]
fn derived_smoothness_sweep() {
    for vertical in (1..=2_000_000).step_by(9973) {
        for scope in [250, 1000, 1500, 4000, 12_000] {
            let s = RecoilSettings { vertical, scope, ..RecoilSettings::default() };
            if let Ok(st) = prepare(&s) {
                let x = vertical as f64 * scope as f64 * 24.0 / 1e6;
                let expected = x.sqrt().round().max(1.0) as i16;
                assert!((st.smoothness - expected).abs() <= 1, "{vertical} {scope}");
            }
        }
    }
}

#[test]
fn largest_step_accepted() {
    // multiplier 100 * 20 / 2000 = 1; one step per bullet; exponent 1
    let base = RecoilSettings {
        initial: 1000,
        fov: 100,
        sensitivity: 2000,
        smoothness: Some(1),
        ..RecoilSettings::default()
    };
    let st = setup_of(&RecoilSettings { vertical: 32_763_000, ..base });
    let mut b = BurstState::new();
    assert_eq!(b.fire_bullet(&st), Some(vec![32763]));
    assert_eq!(
        prepare(&RecoilSettings { vertical: 32_764_000, ..base }),
        Err(ProfileError::StepOutOfRange)
    );
}

fn held() -> helious::wire::MouseSnapshot {
    helious::wire::MouseSnapshot { left: true, right: true, middle: false, side4: false, side5: false }
}

fn aim_only() -> helious::wire::MouseSnapshot {
    helious::wire::MouseSnapshot { left: false, right: true, middle: false, side4: false, side5: false }
}

#[test]
fn trigger_needs_both_buttons() {
    assert!(helious::burst::trigger_held(held()));
    assert!(!helious::burst::trigger_held(aim_only()));
}

#[test]
fn release_stopwatch_resets_burst() {
    let s = RecoilSettings { local_overflow: true, global_overflow: true, ..profile(2100) };
    let st = setup_of(&s);
    let mut b = BurstState::new();
    let first = b.observe(&st, held(), 0).unwrap();
    assert!(b.observe(&st, held(), 10).is_some());
    assert_eq!(b.current_bullet, 2);
    // released: the stopwatch starts at the first released observation
    assert_eq!(b.observe(&st, aim_only(), 1000), None);
    assert_eq!(b.released_since, Some(1000));
    assert_eq!(b.observe(&st, aim_only(), 1249), None);
    assert_eq!(b.current_bullet, 2);
    assert_eq!(b.observe(&st, aim_only(), 1250), None);
    assert_eq!(b.current_bullet, 0);
    assert_eq!(b.global_overflow_y, 0);
    assert_eq!(b.global_time_overflow, 0);
    assert_eq!(b.released_since, None);
    // the next burst starts over with the first bullet
    assert_eq!(b.observe(&st, held(), 1300), Some(first));
}

#[test]
fn short_release_keeps_burst() {
    let st = setup_of(&profile(2000));
    let mut b = BurstState::new();
    b.observe(&st, held(), 0).unwrap();
    assert_eq!(b.observe(&st, aim_only(), 100), None);
    assert_eq!(b.observe(&st, aim_only(), 300), None);
    // pressed again before the release reached 250 us: the burst goes on
    assert_eq!(b.observe(&st, held(), 340), Some(vec![7; 7]));
    assert_eq!(b.released_since, None);
    assert_eq!(b.observe(&st, aim_only(), 400), None);
    assert_eq!(b.current_bullet, 2);
}

#[test]
fn magazine_total_may_trail_by_more_than_one_unit() {
    // 2.4 units per bullet in one step, both carries on: each bullet emits 2 and
    // carries 0.4, which is folded back only once it reaches a whole unit
    let s = RecoilSettings {
        vertical: 2400,
        initial: 1000,
        mag_size: 3,
        fov: 100,
        sensitivity: 2000,
        smoothness: Some(1),
        local_overflow: true,
        global_overflow: true,
        ..RecoilSettings::default()
    };
    let st = setup_of(&s);
    let mut b = BurstState::new();
    assert_eq!(b.fire_bullet(&st), Some(vec![2]));
    assert_eq!(b.fire_bullet(&st), Some(vec![2]));
    assert_eq!(b.fire_bullet(&st), Some(vec![2]));
    assert_eq!(b.fire_bullet(&st), None);
    // 6 emitted against 7.2: the carry holds the other 1.2
    assert_eq!(b.global_overflow_y * 10, 12 * st.y_den);
}

#[test]
fn derived_smoothness_ties_to_even() {
    // multiplier 100 * 20 / 2000 = 1, so the movement is the vertical value itself
    let base = RecoilSettings { fov: 100, sensitivity: 2000, ..RecoilSettings::default() };
    // sqrt(2.25) = 1.5 -> 2, sqrt(6.25) = 2.5 -> 2, sqrt(12.25) = 3.5 -> 4
    assert_eq!(setup_of(&RecoilSettings { vertical: 2250, ..base }).smoothness, 2);
    assert_eq!(setup_of(&RecoilSettings { vertical: 6250, ..base }).smoothness, 2);
    assert_eq!(setup_of(&RecoilSettings { vertical: 12250, ..base }).smoothness, 4);
    // just off the ties
    assert_eq!(setup_of(&RecoilSettings { vertical: 6251, ..base }).smoothness, 3);
    assert_eq!(setup_of(&RecoilSettings { vertical: 12249, ..base }).smoothness, 3);
}

#[test]
fn one_very_late_step_is_absorbed() {
    let st = setup_of(&profile(2000));
    let mut p = StepPacer { time_overflow: 0 };
    let mut total: u64 = 0;
    let n: u64 = 200;
    for i in 0..n {
        // every step 2000 ns late, one of them 30 ms later still
        let extra = if i == 50 { 30_000_000 } else { 0 };
        let elapsed = p.target_ns(&st) as u64 + 2000 + extra;
        assert!(p.try_complete(&st, elapsed));
        total += elapsed;
    }
    let ideal = n as i128 * 60_000_000_000 / 3500;
    let drift = total as i128 - ideal;
    assert!(drift >= -1 && drift <= 2001, "{drift}");
}
