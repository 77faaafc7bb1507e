use tower_sim::timer::{Timer, TimerMode};

// Ticks per second is 120, so 0.5 s = 60 ticks, 1.0 s = 120 ticks,
// 1/60 s = 2 ticks, 1/120 s = 1 tick, and a tenth of a second = 12 ticks.

#[test]
fn oneshot_reports_just_finished_exactly_once() {
    let mut t = Timer::new(60, TimerMode::OneShot);
    t.tick(48);
    assert!(!t.just_finished());
    assert_eq!(t.elapsed(), 48);
    t.tick(24);
    assert!(t.just_finished());
    assert_eq!(t.elapsed(), 60);
    t.tick(10);
    assert!(!t.just_finished());
    assert_eq!(t.elapsed(), 60);
    t.tick(1000);
    assert!(!t.just_finished());
    assert_eq!(t.elapsed(), 60);
}

#[test]
fn oneshot_fires_on_exact_reach() {
    let mut t = Timer::new(60, TimerMode::OneShot);
    t.tick(60);
    assert!(t.just_finished());
    assert_eq!(t.elapsed(), 60);
    t.tick(60);
    assert!(!t.just_finished());
}

#[test]
fn repeating_wraps_and_keeps_overshoot() {
    let mut t = Timer::new(120, TimerMode::Repeating);
    t.tick(100);
    assert!(!t.just_finished());
    assert_eq!(t.elapsed(), 100);
    t.tick(30);
    assert!(t.just_finished());
    assert_eq!(t.elapsed(), 10);
    t.tick(110);
    assert!(t.just_finished());
    assert_eq!(t.elapsed(), 0);
}

#[test]
fn repeating_fires_every_period_at_constant_delta() {
    // one fire per second over ten seconds of 1/60 s frames
    let mut t = Timer::new(120, TimerMode::Repeating);
    let mut fires = 0;
    for _ in 0..600 {
        t.tick(2);
        if t.just_finished() {
            fires += 1;
        }
    }
    assert_eq!(fires, 10);
}

#[test]
fn pathological_large_delta_single_fire_with_residual() {
    // a single 3.7 s delta against a 1.0 s period: one completion is
    // reported and the residual 0.7 s is carried, so the next completion
    // comes 0.3 s later
    let mut t = Timer::new(120, TimerMode::Repeating);
    t.tick(444);
    assert!(t.just_finished());
    assert_eq!(t.elapsed(), 84);
    t.tick(35);
    assert!(!t.just_finished());
    assert_eq!(t.elapsed(), 119);
    t.tick(1);
    assert!(t.just_finished());
    assert_eq!(t.elapsed(), 0);
}

#[test]
fn timer_getters_report_construction() {
    let t = Timer::new(120, TimerMode::Repeating);
    assert_eq!(t.period(), 120);
    assert_eq!(t.mode(), TimerMode::Repeating);
    assert_eq!(t.elapsed(), 0);
    assert!(!t.just_finished());
}
