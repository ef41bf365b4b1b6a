use plato_timing::{Cadence, EnergyLevel, TensorClock, TimingConfig};

#[test]
fn clock_creation_default() {
    let config = TimingConfig::default();
    let clock = TensorClock::new(config);
    assert_eq!(clock.beat_count(), 0);
    assert!(clock.bpm() >= 60 && clock.bpm() <= 120);
}

#[test]
fn tick_advances_beat_count() {
    let mut clock = TensorClock::new(TimingConfig::default());
    assert_eq!(clock.beat_count(), 0);
    let b = clock.tick();
    assert_eq!(b.beat_number, 1);
    assert_eq!(clock.beat_count(), 1);
    clock.tick();
    assert_eq!(clock.beat_count(), 2);
}

#[test]
fn bpm_stays_in_range() {
    let config = TimingConfig {
        bpm_min: 60,
        bpm_max: 120,
        ..Default::default()
    };
    let mut clock = TensorClock::new(config);
    for _ in 0..200 {
        clock.tick();
        assert!(clock.bpm() >= 60 && clock.bpm() <= 120);
    }
}

#[test]
fn bpm_adapts_to_energy_low() {
    let mut clock = TensorClock::new(TimingConfig::default());
    clock.set_energy(EnergyLevel::Low);
    for _ in 0..100 {
        clock.tick();
    }
    let (lo, hi) = EnergyLevel::Low.bpm_range();
    assert!(clock.bpm() >= lo && clock.bpm() <= hi);
}

#[test]
fn bpm_adapts_to_energy_critical() {
    let mut clock = TensorClock::new(TimingConfig::default());
    clock.set_energy(EnergyLevel::Critical);
    for _ in 0..100 {
        clock.tick();
    }
    let (lo, hi) = EnergyLevel::Critical.bpm_range();
    assert!(clock.bpm() >= lo && clock.bpm() <= hi);
}

#[test]
fn bpm_changes_gradually() {
    let mut clock = TensorClock::new(TimingConfig::default());
    let initial_bpm = clock.bpm();
    clock.set_energy(EnergyLevel::Critical);
    // After one tick, BPM shouldn't jump more than 2
    clock.tick();
    let diff = (clock.bpm() as f64 - initial_bpm as f64).abs();
    assert!(diff <= 2.01, "BPM jumped by {diff}, expected ≤ 2");
}

#[test]
fn downbeat_detection() {
    let config = TimingConfig {
        downbeat_interval: 4,
        ..Default::default()
    };
    let mut clock = TensorClock::new(config);
    // Beats 1, 5, 9, 13 are downbeats
    for i in 1..=16 {
        let beat = clock.tick();
        let expected = i % 4 == 1;
        assert_eq!(
            beat.is_downbeat, expected,
            "Beat {} downbeat mismatch: expected {}, got {}",
            i, expected, beat.is_downbeat
        );
    }
}

#[test]
fn beats_until_downbeat_calculation() {
    let config = TimingConfig {
        downbeat_interval: 4,
        ..Default::default()
    };
    let mut clock = TensorClock::new(config);
    // Before any ticks, beats_until_downbeat should be 0 (first tick is downbeat)
    assert_eq!(clock.beats_until_downbeat(), 0);
    clock.tick(); // beat 1 (downbeat)
    assert_eq!(clock.beats_until_downbeat(), 4);
    clock.tick(); // beat 2
    assert_eq!(clock.beats_until_downbeat(), 3);
    clock.tick(); // beat 3
    assert_eq!(clock.beats_until_downbeat(), 2);
    clock.tick(); // beat 4
    assert_eq!(clock.beats_until_downbeat(), 1);
}

#[test]
fn tminus_scheduling_and_firing() {
    let config = TimingConfig {
        downbeat_interval: 8,
        ..Default::default()
    };
    let mut clock = TensorClock::new(config);
    clock.tick(); // beat 1 (downbeat)
    // Schedule 3 beats before next downbeat (beat 9)
    let event = clock.schedule_tminus(3, 42);
    assert_eq!(event.n_beats, 3);
    assert_eq!(event.callback_id, 42);
    assert!(!event.fired);
    // Fire should be at beat 6 (9 - 3)
    assert_eq!(event.fire_at_beat, 6);
}

#[test]
fn tminus_event_fires() {
    let config = TimingConfig {
        downbeat_interval: 4,
        ..Default::default()
    };
    let mut clock = TensorClock::new(config);
    clock.tick(); // beat 1 (downbeat)
    let event = clock.schedule_tminus(2, 10);
    assert_eq!(event.fire_at_beat, 3);
    clock.tick(); // beat 2
    clock.tick(); // beat 3 → should fire
    let fired = clock.drain_fired_events();
    assert_eq!(fired.len(), 1);
    assert_eq!(fired[0].callback_id, 10);
}

#[test]
fn cadence_technical_speaks_on_downbeats() {
    let config = TimingConfig {
        downbeat_interval: 4,
        ..Default::default()
    };
    let mut clock = TensorClock::new(config);
    for i in 1..=8 {
        let beat = clock.tick();
        let should = Cadence::Technical.should_speak(&beat);
        assert_eq!(should, i % 4 == 1, "Technical should_speak at beat {i}");
    }
}

#[test]
fn cadence_casual_speaks_on_offbeats() {
    let config = TimingConfig {
        downbeat_interval: 4,
        ..Default::default()
    };
    let mut clock = TensorClock::new(config);
    for i in 1..=8 {
        let beat = clock.tick();
        let should = Cadence::Casual.should_speak(&beat);
        assert_eq!(should, i % 4 != 1, "Casual should_speak at beat {i}");
    }
}

#[test]
fn cadence_poetic_speaks_always() {
    let mut clock = TensorClock::new(TimingConfig::default());
    for _ in 1..=8 {
        let beat = clock.tick();
        assert!(Cadence::Poetic.should_speak(&beat));
    }
}

#[test]
fn rapid_energy_changes_stay_in_range() {
    let mut clock = TensorClock::new(TimingConfig::default());
    let energies = [
        EnergyLevel::Critical,
        EnergyLevel::Low,
        EnergyLevel::High,
        EnergyLevel::Low,
        EnergyLevel::Critical,
        EnergyLevel::Medium,
    ];
    for &e in &energies {
        clock.set_energy(e);
        for _ in 0..5 {
            clock.tick();
            assert!(
                clock.bpm() >= 60 && clock.bpm() <= 120,
                "BPM {} out of range",
                clock.bpm()
            );
        }
    }
}
