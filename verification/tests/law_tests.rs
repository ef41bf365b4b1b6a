use plato_timing::{Beat, BeatTiming, Cadence, EnergyLevel, TensorClock, TimingConfig};

fn clock_with_interval(interval: u32) -> TensorClock {
    TensorClock::new(TimingConfig {
        downbeat_interval: interval,
        ..Default::default()
    })
}

#[test]
fn default_config_values() {
    let config = TimingConfig::default();
    assert_eq!(config.bpm_min, 60);
    assert_eq!(config.bpm_max, 120);
    assert_eq!(config.swing_factor, 50);
    assert_eq!(config.downbeat_interval, 4);
}

#[test]
fn energy_ranges_and_targets() {
    assert_eq!(EnergyLevel::Low.bpm_range(), (60, 72));
    assert_eq!(EnergyLevel::Medium.bpm_range(), (72, 88));
    assert_eq!(EnergyLevel::High.bpm_range(), (88, 108));
    assert_eq!(EnergyLevel::Critical.bpm_range(), (108, 120));
    assert_eq!(EnergyLevel::Low.target_bpm(), 66);
    assert_eq!(EnergyLevel::Medium.target_bpm(), 80);
    assert_eq!(EnergyLevel::High.target_bpm(), 98);
    assert_eq!(EnergyLevel::Critical.target_bpm(), 114);
}

#[test]
fn new_clock_starts_at_medium() {
    let clock = TensorClock::new(TimingConfig::default());
    assert_eq!(clock.bpm(), 80);
    assert_eq!(clock.energy(), EnergyLevel::Medium);
    assert!(clock.pending_events().is_empty());
}

#[test]
fn tempo_converges_to_each_target() {
    for (energy, target) in [
        (EnergyLevel::Low, 66),
        (EnergyLevel::Medium, 80),
        (EnergyLevel::High, 98),
        (EnergyLevel::Critical, 114),
    ] {
        let mut clock = TensorClock::new(TimingConfig::default());
        clock.set_energy(energy);
        for _ in 0..100 {
            clock.tick();
        }
        assert_eq!(clock.bpm(), target);
    }
}

#[test]
fn tempo_steps_by_two_then_lands() {
    let mut clock = TensorClock::new(TimingConfig::default());
    clock.set_energy(EnergyLevel::High);
    let mut seen = Vec::new();
    for _ in 0..10 {
        clock.tick();
        seen.push(clock.bpm());
    }
    assert_eq!(seen, vec![82, 84, 86, 88, 90, 92, 94, 96, 98, 98]);
}

#[test]
fn tempo_never_moves_more_than_two() {
    let mut clock = TensorClock::new(TimingConfig::default());
    let energies = [EnergyLevel::Critical, EnergyLevel::Low, EnergyLevel::High];
    let mut previous = clock.bpm();
    for &e in &energies {
        clock.set_energy(e);
        for _ in 0..30 {
            clock.tick();
            let now = clock.bpm();
            assert!(now.abs_diff(previous) <= 2);
            previous = now;
        }
    }
}

#[test]
fn tempo_held_at_config_limit() {
    let mut clock = TensorClock::new(TimingConfig {
        bpm_min: 70,
        bpm_max: 75,
        ..Default::default()
    });
    clock.set_energy(EnergyLevel::Low);
    for _ in 0..20 {
        clock.tick();
        assert!(clock.bpm() >= 70 && clock.bpm() <= 75);
    }
    assert_eq!(clock.bpm(), 70);
}

#[test]
fn new_clock_starts_within_limits() {
    let mut clock = TensorClock::new(TimingConfig {
        bpm_min: 90,
        bpm_max: 100,
        ..Default::default()
    });
    assert_eq!(clock.bpm(), 90);
    assert_eq!(clock.target_bpm(), 80);
    for _ in 0..10 {
        clock.tick();
        assert_eq!(clock.bpm(), 90);
    }
    clock.set_energy(EnergyLevel::High);
    clock.tick();
    assert_eq!(clock.bpm(), 92);
    let low = TensorClock::new(TimingConfig {
        bpm_min: 60,
        bpm_max: 70,
        ..Default::default()
    });
    assert_eq!(low.bpm(), 70);
}

#[test]
fn inverted_limits_leave_the_start_tempo() {
    let clock = TensorClock::new(TimingConfig {
        bpm_min: 100,
        bpm_max: 90,
        ..Default::default()
    });
    assert_eq!(clock.bpm(), 80);
}

#[test]
fn off_beats_are_the_other_beats() {
    let mut clock = clock_with_interval(3);
    for i in 1..=9u64 {
        let beat = clock.tick();
        assert_eq!(beat.beat_number, i);
        assert_eq!(beat.is_downbeat, i % 3 == 1);
        assert_eq!(beat.is_offbeat, !beat.is_downbeat);
        assert_eq!(beat.energy, EnergyLevel::Medium);
    }
}

#[test]
fn one_beat_bars_are_all_downbeats() {
    let mut clock = clock_with_interval(1);
    assert_eq!(clock.beats_until_downbeat(), 0);
    for _ in 0..5 {
        let beat = clock.tick();
        assert!(beat.is_downbeat);
        assert!(!beat.is_offbeat);
        assert_eq!(clock.beats_until_downbeat(), 1);
    }
}

#[test]
fn next_downbeat_is_beats_until_ahead() {
    let mut clock = clock_with_interval(3);
    for _ in 0..10 {
        clock.tick();
        let until = clock.beats_until_downbeat();
        assert!(until >= 1 && until <= 3);
        let mut beat = clock.tick();
        for _ in 1..until {
            assert!(!beat.is_downbeat);
            beat = clock.tick();
        }
        assert!(beat.is_downbeat);
    }
}

#[test]
fn tminus_without_room_goes_to_following_downbeat() {
    let mut clock = clock_with_interval(4);
    clock.tick(); // beat 1, next downbeat is beat 5
    let at_edge = clock.schedule_tminus(4, 1);
    assert_eq!(at_edge.fire_at_beat, 5);
    let beyond = clock.schedule_tminus(5, 2);
    assert_eq!(beyond.fire_at_beat, 4);
    // Two whole intervals ahead: still lands in the future, 8 before beat 13.
    let far = clock.schedule_tminus(8, 3);
    assert_eq!(far.fire_at_beat, 5);
    let farther = clock.schedule_tminus(11, 4);
    assert_eq!(farther.fire_at_beat, 2);
}

#[test]
fn tminus_before_first_beat_counts_from_beat_one() {
    // Before the first tick the next downbeat is beat 1, then beat 5.
    let mut clock = clock_with_interval(4);
    assert_eq!(clock.schedule_tminus(0, 1).fire_at_beat, 1);
    assert_eq!(clock.schedule_tminus(2, 2).fire_at_beat, 3);
    assert_eq!(clock.schedule_tminus(1, 3).fire_at_beat, 4);
    let fired: Vec<u64> = (1..=5)
        .map(|_| {
            clock.tick();
            clock.drain_fired_events().iter().map(|e| e.callback_id).collect::<Vec<_>>()
        })
        .flatten()
        .collect();
    assert_eq!(fired, vec![1, 2, 3]);
}

#[test]
fn tminus_ids_count_up() {
    let mut clock = clock_with_interval(4);
    clock.tick();
    let ids: Vec<u64> = (0..3).map(|k| clock.schedule_tminus(1, k).id).collect();
    assert_eq!(ids, vec![0, 1, 2]);
    let pending: Vec<u64> = clock.pending_events().iter().map(|e| e.id).collect();
    assert_eq!(pending, vec![0, 1, 2]);
}

#[test]
fn fired_event_stays_pending_until_drained() {
    let mut clock = clock_with_interval(4);
    clock.tick(); // beat 1
    clock.schedule_tminus(3, 7); // fires at beat 2
    clock.schedule_tminus(1, 8); // fires at beat 4
    clock.tick(); // beat 2
    let pending = clock.pending_events();
    assert_eq!(pending.len(), 2);
    assert!(pending[0].fired);
    assert!(!pending[1].fired);
    let first = clock.drain_fired_events();
    assert_eq!(first.len(), 1);
    assert_eq!(first[0].callback_id, 7);
    assert!(clock.drain_fired_events().is_empty());
    assert_eq!(clock.pending_events().len(), 1);
    assert_eq!(clock.pending_events()[0].callback_id, 8);
    clock.tick(); // beat 3
    clock.tick(); // beat 4
    let second = clock.drain_fired_events();
    assert_eq!(second.len(), 1);
    assert_eq!(second[0].callback_id, 8);
    assert!(clock.pending_events().is_empty());
}

#[test]
fn clone_keeps_state() {
    let mut clock = clock_with_interval(4);
    clock.tick();
    clock.schedule_tminus(2, 5);
    clock.set_energy(EnergyLevel::High);
    let copy = clock.clone();
    assert_eq!(copy.beat_count(), clock.beat_count());
    assert_eq!(copy.bpm(), clock.bpm());
    assert_eq!(copy.energy(), EnergyLevel::High);
    assert_eq!(copy.pending_events(), clock.pending_events());
}

fn beat(number: u64, downbeat: bool) -> Beat {
    Beat {
        beat_number: number,
        is_downbeat: downbeat,
        is_offbeat: !downbeat,
        energy: EnergyLevel::Medium,
    }
}

fn timing(speak_at: u32, duration: u32, is_swing: bool) -> BeatTiming {
    BeatTiming { speak_at, duration, is_swing }
}

#[test]
fn timing_for_each_cadence() {
    let down = beat(1, true);
    let off = beat(2, false);
    assert_eq!(Cadence::Technical.timing_for_beat(&down), timing(0, 4800, false));
    assert_eq!(Cadence::Technical.timing_for_beat(&off), timing(0, 4800, false));
    assert_eq!(Cadence::Casual.timing_for_beat(&off), timing(0, 3600, true));
    assert_eq!(Cadence::Casual.timing_for_beat(&down), timing(3000, 2400, false));
    assert_eq!(Cadence::Analytical.timing_for_beat(&down), timing(0, 4200, false));
    assert_eq!(Cadence::Analytical.timing_for_beat(&off), timing(1500, 1800, false));
    assert_eq!(Cadence::Poetic.timing_for_beat(&off), timing(1980, 5400, true));
    assert_eq!(Cadence::Poetic.timing_for_beat(&down), timing(0, 5400, false));
}

#[test]
fn analytical_speaks_on_odd_beats() {
    for n in 1..=6u64 {
        assert_eq!(Cadence::Analytical.should_speak(&beat(n, false)), n % 2 == 1);
    }
}

#[test]
fn technical_and_casual_take_turns() {
    let mut clock = clock_with_interval(2);
    for _ in 0..6 {
        let b = clock.tick();
        assert_ne!(
            Cadence::Technical.should_speak(&b),
            Cadence::Casual.should_speak(&b)
        );
    }
}

#[test]
fn downbeat_follows_each_tminus_by_n_beats() {
    for interval in 1..=5u32 {
        for n in 0..3 * interval + 2 {
            let mut clock = clock_with_interval(interval);
            clock.tick();
            clock.tick();
            let event = clock.schedule_tminus(n, 0);
            assert!(event.fire_at_beat > clock.beat_count());
            let mut beat = clock.tick();
            while beat.beat_number < event.fire_at_beat + n as u64 {
                beat = clock.tick();
            }
            assert!(beat.is_downbeat);
        }
    }
}

#[test]
fn tminus_picks_nearest_downbeat_with_room() {
    for interval in 1..=5u32 {
        for n in 0..3 * interval + 2 {
            let mut clock = clock_with_interval(interval);
            clock.tick();
            clock.tick();
            let now = clock.beat_count();
            let event = clock.schedule_tminus(n, 0);
            let is_downbeat = |b: u64| (b - 1) % interval as u64 == 0;
            for f in now + 1..event.fire_at_beat {
                assert!(!is_downbeat(f + n as u64));
            }
            assert!(is_downbeat(event.fire_at_beat + n as u64));
        }
    }
}

#[test]
fn countdown_drops_and_restarts() {
    for interval in 1..=5u32 {
        let mut clock = clock_with_interval(interval);
        for _ in 0..12 {
            let before = clock.beats_until_downbeat();
            clock.tick();
            let after = clock.beats_until_downbeat();
            let expected = if before >= 2 { before - 1 } else { interval };
            assert_eq!(after, expected);
        }
    }
}

#[test]
fn drained_event_is_delivered_once() {
    let mut clock = clock_with_interval(4);
    clock.tick();
    clock.schedule_tminus(3, 11); // fires at beat 2
    clock.tick();
    let first = clock.drain_fired_events();
    assert_eq!(first.len(), 1);
    let delivered = first[0].id;
    clock.schedule_tminus(1, 12);
    for _ in 0..8 {
        clock.tick();
        assert!(clock.pending_events().iter().all(|e| e.id != delivered));
        assert!(clock.drain_fired_events().iter().all(|e| e.id != delivered));
    }
}

#[test]
fn pending_events_fired_exactly_when_due() {
    let mut clock = clock_with_interval(4);
    for round in 0..6u64 {
        clock.schedule_tminus((round * 3 % 11) as u32, round);
        clock.tick();
        for e in clock.pending_events() {
            assert_eq!(e.fired, e.fire_at_beat <= clock.beat_count());
        }
        if round % 2 == 1 {
            clock.drain_fired_events();
        }
    }
}

#[test]
fn from_parts_rebuilds_a_clock() {
    let mut clock = clock_with_interval(4);
    clock.tick();
    clock.schedule_tminus(1, 5);
    clock.schedule_tminus(2, 6);
    clock.set_energy(EnergyLevel::Critical);
    clock.tick();
    let copy = TensorClock::from_parts(
        clock.config(),
        clock.bpm(),
        clock.beat_count(),
        clock.energy(),
        clock.pending_events().to_vec(),
        clock.next_event_id(),
    )
    .expect("valid parts");
    assert_eq!(copy.config(), clock.config());
    assert_eq!(copy.bpm(), clock.bpm());
    assert_eq!(copy.target_bpm(), 114);
    assert_eq!(copy.beat_count(), clock.beat_count());
    assert_eq!(copy.energy(), EnergyLevel::Critical);
    assert_eq!(copy.pending_events(), clock.pending_events());
    assert_eq!(copy.next_event_id(), 2);
}

#[test]
fn from_parts_rejects_bad_ids() {
    let event = |id: u64| plato_timing::TMinusEvent {
        id,
        callback_id: 0,
        n_beats: 1,
        fire_at_beat: 3,
        fired: false,
    };
    let config = TimingConfig::default();
    let rebuild = |events: Vec<plato_timing::TMinusEvent>, next: u64| {
        TensorClock::from_parts(config, 80, 0, EnergyLevel::Medium, events, next).is_some()
    };
    assert!(rebuild(vec![event(0), event(2)], 3));
    assert!(!rebuild(vec![event(2), event(0)], 3));
    assert!(!rebuild(vec![event(1), event(1)], 3));
    assert!(!rebuild(vec![event(0), event(3)], 3));
    assert!(rebuild(vec![], 0));
}
