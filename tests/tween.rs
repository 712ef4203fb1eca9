use libre_hexagon::tween::{FPSTween, TweenEngine, TweenFiring, TweenInfo, ZoomTween, FRACTION_ONE};

#[test]
fn new_tween_starts_at_zero() {
    let t = TweenInfo::new(2_000_000, 500, -1);
    assert_eq!(t.get_duration(), 2_000_000);
    assert_eq!(t.get_cooldown(), 500);
    assert_eq!(t.get_progress(), 0);
    assert_eq!(t.get_repetitions(), -1);
}

#[test]
fn fractions_rise_to_one_within_a_cycle() {
    let mut t = TweenInfo::new(2_000_000, 0, -1);
    let mut seen: Vec<u64> = Vec::new();
    for _ in 0..20 {
        seen.push(t.step(100_000).expect("runs in every tick of the window"));
    }
    for k in 0..20 {
        assert_eq!(seen[k], (k as u64 + 1) * 50_000);
    }
    for k in 1..20 {
        assert!(seen[k - 1] <= seen[k]);
    }
    assert_eq!(*seen.last().unwrap(), FRACTION_ONE);
    assert_eq!(t.get_progress(), 0);
    assert_eq!(t.get_repetitions(), -1);
    assert_eq!(t.step(100_000), Some(50_000));
}

#[test]
fn single_repetition_runs_once_then_never() {
    let mut t = TweenInfo::new(200_000, 100_000, 1);
    assert_eq!(t.step(100_000), Some(500_000));
    assert_eq!(t.step(100_000), Some(FRACTION_ONE));
    assert_eq!(t.step(100_000), Some(FRACTION_ONE));
    assert_eq!(t.get_repetitions(), 0);
    assert_eq!(t.get_progress(), 0);
    for _ in 0..1000 {
        assert_eq!(t.step(100_000), None);
    }
    assert_eq!(t.get_repetitions(), 0);
    assert_eq!(t.get_progress(), 0);
}

#[test]
fn cooldown_suppresses_runs() {
    let mut t = TweenInfo::new(100_000, 300_000, -1);
    assert_eq!(t.step(100_000), Some(FRACTION_ONE));
    assert_eq!(t.step(100_000), Some(FRACTION_ONE));
    assert_eq!(t.step(100_000), None);
    assert_eq!(t.step(100_000), None);
    assert_eq!(t.get_progress(), 0);
    assert_eq!(t.step(50_000), Some(500_000));
}

#[test]
fn zero_duration_runs_once_per_cooldown() {
    let mut t = TweenInfo::new(0, 1_000_000, -1);
    assert_eq!(t.step(16_700), Some(FRACTION_ONE));
    let mut runs = 0;
    for _ in 0..100 {
        if t.step(16_700).is_some() {
            runs += 1;
        }
    }
    // the cycle ends after 60 ticks in total
    assert_eq!(runs, 1);
}

#[test]
fn engine_reports_runs_in_order() {
    let mut e: TweenEngine<u8> = TweenEngine::new();
    e.register(7, 0, 1_000_000, -1);
    e.register(9, 2_000_000, 0, -1);
    assert_eq!(e.len(), 2);
    assert_eq!(*e.get_effect(0), 7);
    assert_eq!(*e.get_effect(1), 9);
    let r = e.tick(16_700);
    assert_eq!(
        r,
        vec![
            TweenFiring { index: 0, fraction: FRACTION_ONE },
            TweenFiring { index: 1, fraction: 8_350 },
        ]
    );
    let r = e.tick(16_700);
    assert_eq!(r, vec![TweenFiring { index: 1, fraction: 16_700 }]);
    assert_eq!(e.get_tween(0).get_progress(), 33_400);
    e.cleanup();
    assert_eq!(e.len(), 2);
}

#[test]
fn exhausted_entry_does_not_stop_later_ones() {
    let mut e: TweenEngine<&str> = TweenEngine::new();
    e.register("done", 100, 0, 0);
    e.register("live", 1_000, 0, -1);
    let r = e.tick(100);
    assert_eq!(r, vec![TweenFiring { index: 1, fraction: 100_000 }]);
    assert_eq!(e.get_tween(0).get_progress(), 0);
}

#[test]
fn effect_markers_build() {
    let _f = FPSTween::new();
    let _z = ZoomTween::new();
    let mut e: TweenEngine<ZoomTween> = TweenEngine::new();
    e.register(ZoomTween::new(), 2_000_000, 0, -1);
    assert_eq!(e.tick(1_000_000), vec![TweenFiring { index: 0, fraction: 500_000 }]);
}
