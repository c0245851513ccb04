use time_rewind::level_time::{InterpolationFraction, LevelTime};
use time_rewind::time_manager::{TimeManager, TimeMode};
use time_rewind::tracked_id::IdGenerator;

#[test]
fn level_time_arithmetic() {
    let t = LevelTime::from_millis(1000);
    assert_eq!(t.as_millis(), 1000);
    assert_eq!(t.plus_millis(500).as_millis(), 1500);
    assert_eq!(t.minus_millis_saturating(400).as_millis(), 600);
    assert_eq!(t.minus_millis_saturating(4000).as_millis(), 0);
    assert_eq!(t.duration_millis_since(&LevelTime::from_millis(250)), 750);
    assert_eq!(LevelTime::zero().as_millis(), 0);
}

#[test]
fn level_time_ordering() {
    let a = LevelTime::from_millis(100);
    let b = LevelTime::from_millis(200);
    assert!(a.is_before(&b));
    assert!(!b.is_before(&a));
    assert!(a.is_at_or_before(&b));
    assert!(a.is_at_or_before(&a));
    assert!(!b.is_at_or_before(&a));
}

#[test]
fn interpolation_fraction_exact() {
    let lo = LevelTime::from_millis(1000);
    let hi = LevelTime::from_millis(2000);
    let f = LevelTime::interpolation_fraction(lo, hi, LevelTime::from_millis(1500));
    assert_eq!(f, InterpolationFraction { numerator: 500, denominator: 1000 });
}

#[test]
fn interpolation_fraction_clamped() {
    let lo = LevelTime::from_millis(1000);
    let hi = LevelTime::from_millis(2000);
    let below = LevelTime::interpolation_fraction(lo, hi, LevelTime::from_millis(500));
    assert_eq!(below, InterpolationFraction { numerator: 0, denominator: 1000 });
    let above = LevelTime::interpolation_fraction(lo, hi, LevelTime::from_millis(2500));
    assert_eq!(above, InterpolationFraction { numerator: 1000, denominator: 1000 });
}

#[test]
fn time_manager_plays_forward() {
    let mut tm = TimeManager::new();
    assert_eq!(tm.level_time_millis(), 0);
    assert_eq!(tm.mode(), TimeMode::Playing);
    tm.tick(16);
    tm.tick(16);
    assert_eq!(tm.level_time_millis(), 32);
    assert_eq!(tm.mode(), TimeMode::Playing);
    assert!(tm.is_playing());
    assert!(!tm.is_rewinding());
}

#[test]
fn time_manager_rewinds_to_target() {
    let mut tm = TimeManager::new();
    tm.tick(100);
    tm.start_rewind(LevelTime::zero());
    assert_eq!(tm.mode(), TimeMode::Rewinding);
    assert_eq!(tm.level_time_millis(), 100);
    tm.tick(60);
    assert_eq!(tm.level_time_millis(), 40);
    assert_eq!(tm.mode(), TimeMode::Rewinding);
    // the clock stops at the target, never below the epoch, and playback resumes
    tm.tick(60);
    assert_eq!(tm.level_time_millis(), 0);
    assert_eq!(tm.mode(), TimeMode::Playing);
}

#[test]
fn time_manager_rewind_target_midway() {
    let mut tm = TimeManager::new();
    tm.tick(100);
    tm.start_rewind(LevelTime::from_millis(70));
    tm.tick(100);
    assert_eq!(tm.level_time_millis(), 70);
    assert_eq!(tm.mode(), TimeMode::Playing);
}

#[test]
fn time_manager_rewind_trigger_released() {
    let mut tm = TimeManager::new();
    tm.tick(100);
    tm.start_rewind(LevelTime::zero());
    tm.tick(30);
    tm.stop_rewind();
    assert_eq!(tm.mode(), TimeMode::Playing);
    assert_eq!(tm.level_time_millis(), 70);
}

#[test]
fn time_manager_rewind_past_present_is_noop() {
    let mut tm = TimeManager::new();
    tm.tick(50);
    tm.start_rewind(LevelTime::from_millis(200));
    assert_eq!(tm.mode(), TimeMode::Playing);
    assert_eq!(tm.level_time_millis(), 50);
}

#[test]
fn time_manager_reset() {
    let mut tm = TimeManager::new();
    tm.tick(100);
    tm.start_rewind(LevelTime::zero());
    tm.reset();
    assert_eq!(tm.level_time_millis(), 0);
    assert_eq!(tm.mode(), TimeMode::Playing);
}

#[test]
fn id_generator_never_reuses() {
    let mut gen = IdGenerator::new();
    let a = gen.generate();
    let b = gen.generate();
    let c = gen.generate();
    assert_ne!(a, b);
    assert_ne!(a, c);
    assert_ne!(b, c);
    assert_eq!(a.value, 0);
    assert_eq!(b.value, 1);
    assert_eq!(c.value, 2);
}
