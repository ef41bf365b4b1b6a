use vstd::prelude::*;

use crate::cadence::Beat;
use crate::config::TimingConfig;
use crate::energy::{energy_target_bpm, EnergyLevel};
use crate::meter::{
    beats_to_next_downbeat, beats_until_next_downbeat, is_downbeat_number, lemma_tminus_fire_beat,
    tminus_fire_beat, tminus_reach, tminus_schedulable,
};
use vstd::arithmetic::div_mod::{lemma_fundamental_div_mod, lemma_mod_bound};

use crate::tempo::{
    clamp_tempo, lemma_tempo_step_gradual, lemma_tempo_step_within_limits, tempo_step,
};

verus! {

/// A scheduled event that fires N beats before a downbeat.
#[derive(Debug, Clone, Copy, PartialEq, Eq, Structural)]
pub struct TMinusEvent {
    /// Unique event ID.
    pub id: u64,
    /// Callback identifier for the event.
    pub callback_id: u64,
    /// How many beats before the downbeat to fire.
    pub n_beats: u32,
    /// The beat number at which this event fires.
    pub fire_at_beat: u64,
    /// Whether this event has already fired.
    pub fired: bool,
}

/// The master tensor clock.
///
/// The tempo's target is always the midpoint of the current energy level.
#[derive(Debug)]
pub struct TensorClock {
    config: TimingConfig,
    bpm: u32,
    beat_count: u64,
    energy: EnergyLevel,
    tminus_events: Vec<TMinusEvent>,
    next_event_id: u64,
}

/// What a clock holds: its configuration, current tempo (whole BPM), the
/// number of beats ticked, the energy level, the scheduled events in the
/// order they were scheduled, and the id the next event will get.
pub struct ClockState {
    pub config: TimingConfig,
    pub bpm: u32,
    pub beat_count: u64,
    pub energy: EnergyLevel,
    pub events: Seq<TMinusEvent>,
    pub next_event_id: u64,
}

impl View for TensorClock {
    type V = ClockState;

    closed spec fn view(&self) -> ClockState {
        ClockState {
            config: self.config,
            bpm: self.bpm,
            beat_count: self.beat_count,
            energy: self.energy,
            events: self.tminus_events@,
            next_event_id: self.next_event_id,
        }
    }
}

/// Event ids grow strictly along the sequence (so no id occurs twice).
pub open spec fn ids_increasing(events: Seq<TMinusEvent>) -> bool {
    forall|i: int, j: int| 0 <= i < j < events.len() ==> #[trigger] events[i].id < #[trigger] events[j].id
}

/// Every event id is below `bound`.
pub open spec fn ids_below(events: Seq<TMinusEvent>, bound: u64) -> bool {
    forall|i: int| 0 <= i < events.len() ==> #[trigger] events[i].id < bound
}

/// An event as it stands once beat `now` has been reached.
pub open spec fn fire_due(event: TMinusEvent, now: u64) -> TMinusEvent {
    TMinusEvent { fired: event.fired || now >= event.fire_at_beat, ..event }
}

/// All events as they stand once beat `now` has been reached.
pub open spec fn fire_due_events(events: Seq<TMinusEvent>, now: u64) -> Seq<TMinusEvent> {
    events.map_values(|event: TMinusEvent| fire_due(event, now))
}

/// The fired events, in their order.
pub open spec fn fired_events(events: Seq<TMinusEvent>) -> Seq<TMinusEvent> {
    events.filter(|event: TMinusEvent| event.fired)
}

/// The events that have not fired, in their order.
pub open spec fn unfired_events(events: Seq<TMinusEvent>) -> Seq<TMinusEvent> {
    events.filter(|event: TMinusEvent| !event.fired)
}

/// The tempo a clock moves toward: the midpoint of its energy level.
pub open spec fn target_of(state: ClockState) -> u32 {
    energy_target_bpm(state.energy)
}

/// The tempo a new clock starts at: the Medium midpoint, held within the
/// configured limits where they form a range.
pub open spec fn starting_bpm(config: TimingConfig) -> u32 {
    let medium = energy_target_bpm(EnergyLevel::Medium);
    if config.bpm_min <= config.bpm_max {
        clamp_tempo(medium as int, config.bpm_min as int, config.bpm_max as int) as u32
    } else {
        medium
    }
}

/// A new clock: Medium energy, no beats, no events.
pub open spec fn initial_state(config: TimingConfig) -> ClockState {
    ClockState {
        config,
        bpm: starting_bpm(config),
        beat_count: 0,
        energy: EnergyLevel::Medium,
        events: Seq::empty(),
        next_event_id: 0,
    }
}

/// A tick computes without overflow, divides by no zero, and clamps only
/// within a range.
pub open spec fn tick_allowed(state: ClockState) -> bool {
    &&& state.beat_count < u64::MAX
    &&& state.config.downbeat_interval > 0
    &&& state.bpm != target_of(state) ==> state.config.bpm_min <= state.config.bpm_max
}

/// A clock after one tick: one more beat, the tempo one step toward the
/// target, every event whose fire beat is reached marked fired.
pub open spec fn ticked(state: ClockState) -> ClockState {
    let now = (state.beat_count + 1) as u64;
    ClockState {
        beat_count: now,
        bpm: tempo_step(
            state.bpm as int,
            target_of(state) as int,
            state.config.bpm_min as int,
            state.config.bpm_max as int,
        ) as u32,
        events: fire_due_events(state.events, now),
        ..state
    }
}

/// The beat a tick produces.
pub open spec fn tick_beat(state: ClockState) -> Beat {
    let number = state.beat_count + 1;
    let downbeat = is_downbeat_number(number, state.config.downbeat_interval as int);
    Beat {
        beat_number: number as u64,
        is_downbeat: downbeat,
        is_offbeat: !downbeat,
        energy: state.energy,
    }
}

/// A clock after its energy level changes.
pub open spec fn with_energy(state: ClockState, energy: EnergyLevel) -> ClockState {
    ClockState { energy, ..state }
}

/// Scheduling `n_beats` ahead computes without overflow or division by zero.
pub open spec fn schedule_allowed(state: ClockState, n_beats: u32) -> bool {
    &&& state.next_event_id < u64::MAX
    &&& tminus_schedulable(
        state.beat_count as int,
        state.config.downbeat_interval as int,
        n_beats as int,
    )
}

/// The event that scheduling `n_beats` before a downbeat creates.
pub open spec fn scheduled_event(state: ClockState, n_beats: u32, callback_id: u64) -> TMinusEvent {
    TMinusEvent {
        id: state.next_event_id,
        callback_id,
        n_beats,
        fire_at_beat: tminus_fire_beat(
            state.beat_count as int,
            state.config.downbeat_interval as int,
            n_beats as int,
        ) as u64,
        fired: false,
    }
}

/// A clock after scheduling an event.
pub open spec fn scheduled(state: ClockState, n_beats: u32, callback_id: u64) -> ClockState {
    ClockState {
        events: state.events.push(scheduled_event(state, n_beats, callback_id)),
        next_event_id: (state.next_event_id + 1) as u64,
        ..state
    }
}

/// A clock after its fired events are drained.
pub open spec fn drained(state: ClockState) -> ClockState {
    ClockState { events: unfired_events(state.events), ..state }
}

/// What holds of every clock that is built by `new` and changed by ticks,
/// energy changes, drains and schedules that do not land in the past: event
/// ids grow and stay below the next id, the tempo lies within the configured
/// limits where they form a range, and an event has fired exactly when its
/// fire beat has been reached.
pub open spec fn clock_consistent(state: ClockState) -> bool {
    &&& ids_increasing(state.events)
    &&& ids_below(state.events, state.next_event_id)
    &&& state.config.bpm_min <= state.config.bpm_max ==> state.config.bpm_min <= state.bpm
        <= state.config.bpm_max
    &&& forall|i: int|
        0 <= i < state.events.len() ==> (#[trigger] state.events[i]).fired
            == (state.events[i].fire_at_beat <= state.beat_count)
}

/// Id `id` was handed out and is no longer held by the clock.
pub open spec fn id_retired(state: ClockState, id: u64) -> bool {
    &&& id < state.next_event_id
    &&& forall|i: int| 0 <= i < state.events.len() ==> (#[trigger] state.events[i]).id != id
}

/// One of the operations that change a clock.
#[derive(Debug, Clone, Copy, PartialEq, Eq, Structural)]
pub enum ClockOp {
    /// `tick`.
    Tick,
    /// `set_energy` with this level.
    SetEnergy(EnergyLevel),
    /// `schedule_tminus` with this many beats and this callback id.
    Schedule(u32, u64),
    /// `drain_fired_events`.
    Drain,
}

/// A clock after one operation.
pub open spec fn apply_op(state: ClockState, op: ClockOp) -> ClockState {
    match op {
        ClockOp::Tick => ticked(state),
        ClockOp::SetEnergy(energy) => with_energy(state, energy),
        ClockOp::Schedule(n_beats, callback_id) => scheduled(state, n_beats, callback_id),
        ClockOp::Drain => drained(state),
    }
}

/// An operation's precondition holds on a clock.
pub open spec fn op_allowed(state: ClockState, op: ClockOp) -> bool {
    match op {
        ClockOp::Tick => tick_allowed(state),
        ClockOp::Schedule(n_beats, _) => schedule_allowed(state, n_beats),
        _ => true,
    }
}

/// A clock after a sequence of operations, first to last.
pub open spec fn run_ops(state: ClockState, ops: Seq<ClockOp>) -> ClockState
    decreases ops.len(),
{
    if ops.len() == 0 {
        state
    } else {
        run_ops(apply_op(state, ops[0]), ops.drop_first())
    }
}

/// Every operation of a sequence is allowed on the clock it meets.
pub open spec fn ops_allowed(state: ClockState, ops: Seq<ClockOp>) -> bool
    decreases ops.len(),
{
    ops.len() == 0 || (op_allowed(state, ops[0]) && ops_allowed(
        apply_op(state, ops[0]),
        ops.drop_first(),
    ))
}

impl Clone for TensorClock {
    fn clone(&self) -> (copy: Self)
        ensures
            copy@ == self@,
    {
        proof {
            use_type_invariant(self);
        }
        let tminus_events = self.tminus_events.clone();
        proof {
            assert forall|i: int| 0 <= i < tminus_events@.len() implies tminus_events@[i]
                == self.tminus_events@[i] by {
                assert(cloned::<TMinusEvent>(self.tminus_events[i], tminus_events[i]));
            }
            assert(tminus_events@ =~= self.tminus_events@);
        }
        TensorClock {
            config: self.config,
            bpm: self.bpm,
            beat_count: self.beat_count,
            energy: self.energy,
            tminus_events,
            next_event_id: self.next_event_id,
        }
    }
}

impl TensorClock {
    #[verifier::type_invariant]
    spec fn well_formed(self) -> bool {
        &&& ids_increasing(self.tminus_events@)
        &&& ids_below(self.tminus_events@, self.next_event_id)
    }

    /// Create a new clock with the given configuration.
    ///
    /// It starts at Medium energy, at the Medium midpoint held within the
    /// configured BPM limits.
    pub fn new(config: TimingConfig) -> (clock: Self)
        ensures
            clock@ == initial_state(config),
            clock@.config == config,
            clock@.energy == EnergyLevel::Medium,
            clock@.beat_count == 0,
    {
        let energy = EnergyLevel::Medium;
        let target_bpm = energy.target_bpm();
        let bpm = if config.bpm_min <= config.bpm_max {
            if target_bpm < config.bpm_min {
                config.bpm_min
            } else if target_bpm > config.bpm_max {
                config.bpm_max
            } else {
                target_bpm
            }
        } else {
            target_bpm
        };
        TensorClock {
            bpm,
            config,
            beat_count: 0,
            energy,
            tminus_events: Vec::new(),
            next_event_id: 0,
        }
    }

    /// Rebuild a clock from its parts, as read back from storage. Returns
    /// `None` where the event ids do not grow along `events` or reach
    /// `next_event_id`.
    pub fn from_parts(
        config: TimingConfig,
        bpm: u32,
        beat_count: u64,
        energy: EnergyLevel,
        events: Vec<TMinusEvent>,
        next_event_id: u64,
    ) -> (clock: Option<Self>)
        ensures
            clock is Some <==> ids_increasing(events@) && ids_below(events@, next_event_id),
            clock matches Some(c) ==> c@ == (ClockState {
                config,
                bpm,
                beat_count,
                energy,
                events: events@,
                next_event_id,
            }),
    {
        let count = events.len();
        for i in 0..count
            invariant
                count == events@.len(),
                ids_increasing(events@.take(i as int)),
                ids_below(events@.take(i as int), next_event_id),
        {
            if events[i].id >= next_event_id || (i > 0 && events[i - 1].id >= events[i].id) {
                proof {
                    if events[i as int].id >= next_event_id {
                        assert(!ids_below(events@, next_event_id));
                    } else {
                        assert(!ids_increasing(events@));
                    }
                }
                return None;
            }
            proof {
                let done = events@.take(i as int);
                let next = events@.take(i + 1);
                assert forall|a: int, b: int| 0 <= a < b < next.len() implies #[trigger] next[a].id
                    < #[trigger] next[b].id by {
                    if b < i {
                        assert(done[a] == next[a] && done[b] == next[b]);
                    } else if a < i - 1 {
                        assert(done[a].id < done[i - 1].id);
                    }
                }
                assert forall|a: int| 0 <= a < next.len() implies #[trigger] next[a].id
                    < next_event_id by {
                    if a < i {
                        assert(done[a] == next[a]);
                    }
                }
            }
        }
        proof {
            assert(events@.take(count as int) =~= events@);
        }
        Some(
            TensorClock {
                config,
                bpm,
                beat_count,
                energy,
                tminus_events: events,
                next_event_id,
            },
        )
    }

    /// The configuration the clock was made with.
    pub fn config(&self) -> (config: TimingConfig)
        ensures
            config == self@.config,
    {
        self.config
    }

    /// Current BPM.
    pub fn bpm(&self) -> (bpm: u32)
        ensures
            bpm == self@.bpm,
    {
        self.bpm
    }

    /// The BPM the tempo is moving toward (the energy level's midpoint).
    pub fn target_bpm(&self) -> (target: u32)
        ensures
            target == target_of(self@),
    {
        self.energy.target_bpm()
    }

    /// Current beat count.
    pub fn beat_count(&self) -> (count: u64)
        ensures
            count == self@.beat_count,
    {
        self.beat_count
    }

    /// Current energy level.
    pub fn energy(&self) -> (energy: EnergyLevel)
        ensures
            energy == self@.energy,
    {
        self.energy
    }

    /// The id the next scheduled event will get.
    pub fn next_event_id(&self) -> (id: u64)
        ensures
            id == self@.next_event_id,
    {
        self.next_event_id
    }

    /// How many beats until the next downbeat (0 before the first beat, whose
    /// tick is the first downbeat).
    pub fn beats_until_downbeat(&self) -> (until: u32)
        requires
            self@.beat_count > 0 ==> self@.config.downbeat_interval > 0,
        ensures
            until == beats_until_next_downbeat(
                self@.beat_count as int,
                self@.config.downbeat_interval as int,
            ),
    {
        let interval = self.config.downbeat_interval;
        if self.beat_count == 0 {
            // Haven't started yet; first tick will be downbeat
            return 0;
        }
        // Beat 1 was downbeat, next is beat (interval+1)
        let position = ((self.beat_count - 1) % (interval as u64)) as u32;
        interval - position
    }

    /// Whether a given beat number is a downbeat: the first beat of its group.
    fn is_downbeat(&self, beat_number: u64) -> (downbeat: bool)
        requires
            self@.config.downbeat_interval > 0,
        ensures
            downbeat == is_downbeat_number(
                beat_number as int,
                self@.config.downbeat_interval as int,
            ),
    {
        beat_number >= 1 && (beat_number - 1) % (self.config.downbeat_interval as u64) == 0
    }

    /// Whether a given beat number is an off-beat.
    fn is_offbeat(&self, beat_number: u64) -> (offbeat: bool)
        requires
            self@.config.downbeat_interval > 0,
        ensures
            offbeat == !is_downbeat_number(
                beat_number as int,
                self@.config.downbeat_interval as int,
            ),
    {
        !self.is_downbeat(beat_number)
    }

    /// Advance one beat and return the beat event.
    ///
    /// The tempo moves toward its target by at most 2 BPM and is held within
    /// the configured limits; every event whose fire beat has been reached is
    /// marked fired.
    pub fn tick(&mut self) -> (beat: Beat)
        requires
            tick_allowed(old(self)@),
        ensures
            final(self)@ == ticked(old(self)@),
            beat == tick_beat(old(self)@),
            beat.energy == old(self)@.energy,
            beat.beat_number == old(self)@.beat_count + 1,
            beat.is_offbeat == !beat.is_downbeat,
            old(self)@.config.bpm_min <= old(self)@.bpm <= old(self)@.config.bpm_max
                || old(self)@.bpm != target_of(old(self)@) ==> old(self)@.config.bpm_min
                <= final(self)@.bpm <= old(self)@.config.bpm_max,
            old(self)@.config.bpm_min <= old(self)@.bpm <= old(self)@.config.bpm_max ==> old(
                self,
            )@.bpm - 2 <= final(self)@.bpm <= old(self)@.bpm + 2,
    {
        proof {
            use_type_invariant(&*self);
            let (bpm, target) = (self.bpm as int, target_of(self@) as int);
            let (lo, hi) = (self.config.bpm_min as int, self.config.bpm_max as int);
            if lo <= hi && (lo <= bpm <= hi || bpm != target) {
                lemma_tempo_step_within_limits(bpm, target, lo, hi);
            }
            if lo <= bpm <= hi {
                lemma_tempo_step_gradual(bpm, target, lo, hi);
            }
        }
        self.beat_count = self.beat_count + 1;

        // Gradual BPM adaptation (at most 2 BPM per beat)
        let target_bpm = self.energy.target_bpm();
        if self.bpm != target_bpm {
            let stepped = if self.bpm < target_bpm {
                let diff = target_bpm - self.bpm;
                self.bpm + if diff < 2 { diff } else { 2 }
            } else {
                let diff = self.bpm - target_bpm;
                self.bpm - if diff < 2 { diff } else { 2 }
            };
            self.bpm = if stepped < self.config.bpm_min {
                self.config.bpm_min
            } else if stepped > self.config.bpm_max {
                self.config.bpm_max
            } else {
                stepped
            };
        }

        let beat = Beat {
            beat_number: self.beat_count,
            is_downbeat: self.is_downbeat(self.beat_count),
            is_offbeat: self.is_offbeat(self.beat_count),
            energy: self.energy,
        };

        // Check t-minus events
        let now = self.beat_count;
        let count = self.tminus_events.len();
        let mut updated: Vec<TMinusEvent> = Vec::new();
        for i in 0..count
            invariant
                count == self.tminus_events@.len(),
                updated@.len() == i,
                forall|j: int|
                    0 <= j < i ==> #[trigger] updated@[j] == fire_due(self.tminus_events@[j], now),
        {
            let event = self.tminus_events[i];
            updated.push(
                TMinusEvent { fired: event.fired || now >= event.fire_at_beat, ..event },
            );
        }
        proof {
            assert(updated@ =~= fire_due_events(self.tminus_events@, now));
        }
        self.tminus_events = updated;
        beat
    }

    /// Adapt BPM to the given energy level: the target becomes the level's
    /// midpoint, and later ticks move the tempo toward it.
    pub fn set_energy(&mut self, energy: EnergyLevel)
        ensures
            final(self)@ == with_energy(old(self)@, energy),
            target_of(final(self)@) == energy_target_bpm(energy),
    {
        proof {
            use_type_invariant(&*self);
        }
        self.energy = energy;
    }

    /// Schedule an event N beats before the nearest downbeat that leaves
    /// room for them (before the first beat, the first downbeat is beat 1),
    /// and return it. The event lies in the future, and its fire beat is the
    /// earliest future beat that is N beats before a downbeat.
    pub fn schedule_tminus(&mut self, n_beats: u32, callback_id: u64) -> (event: TMinusEvent)
        requires
            schedule_allowed(old(self)@, n_beats),
        ensures
            event == scheduled_event(old(self)@, n_beats, callback_id),
            final(self)@ == scheduled(old(self)@, n_beats, callback_id),
            forall|i: int|
                0 <= i < old(self)@.events.len() ==> #[trigger] old(self)@.events[i].id < event.id,
            old(self)@.beat_count < event.fire_at_beat,
            old(self)@.config.downbeat_interval > 0 ==> is_downbeat_number(
                event.fire_at_beat + n_beats,
                old(self)@.config.downbeat_interval as int,
            ),
            old(self)@.config.downbeat_interval > 0 ==> forall|fire: int|
                old(self)@.beat_count < fire < event.fire_at_beat ==> !#[trigger] is_downbeat_number(
                    fire + n_beats,
                    old(self)@.config.downbeat_interval as int,
                ),
    {
        proof {
            use_type_invariant(&*self);
            lemma_schedule_lands_ahead(self@, n_beats);
        }
        let ahead: u64 = if self.beat_count == 0 {
            // The first tick is the first downbeat
            1
        } else {
            self.beats_until_downbeat() as u64
        };
        let n = n_beats as u64;
        let reach: u64 = if ahead > n {
            ahead
        } else {
            // Not enough room; move on by whole intervals until there is
            let interval = self.config.downbeat_interval as u64;
            let whole = (n - ahead) / interval + 1;
            proof {
                let (gap, step) = ((n - ahead) as int, interval as int);
                lemma_fundamental_div_mod(gap, step);
                lemma_mod_bound(gap, step);
                assert(whole * step <= gap + step) by (nonlinear_arith)
                    requires
                        gap == step * (whole - 1) + gap % step,
                        0 <= gap % step,
                ;
            }
            ahead + whole * interval
        };
        let fire_at_beat = self.beat_count + reach - n;

        let event = TMinusEvent {
            id: self.next_event_id,
            callback_id,
            n_beats,
            fire_at_beat,
            fired: false,
        };
        self.next_event_id = self.next_event_id + 1;
        let mut events: Vec<TMinusEvent> = Vec::new();
        std::mem::swap(&mut events, &mut self.tminus_events);
        events.push(event);
        self.tminus_events = events;
        event
    }

    /// Get all fired t-minus events, removing them from the clock; the events
    /// that have not fired stay, in their order.
    pub fn drain_fired_events(&mut self) -> (fired: Vec<TMinusEvent>)
        ensures
            fired@ == fired_events(old(self)@.events),
            final(self)@ == drained(old(self)@),
            ids_increasing(fired@),
            forall|event: TMinusEvent|
                #[trigger] fired@.contains(event) <==> old(self)@.events.contains(event)
                    && event.fired,
    {
        proof {
            use_type_invariant(&*self);
        }
        let ghost events = self.tminus_events@;
        let mut fired: Vec<TMinusEvent> = Vec::new();
        let mut kept: Vec<TMinusEvent> = Vec::new();
        let count = self.tminus_events.len();
        for i in 0..count
            invariant
                count == events.len(),
                events == self.tminus_events@,
                ids_increasing(events),
                ids_below(events, self.next_event_id),
                fired@ == fired_events(events.take(i as int)),
                kept@ == unfired_events(events.take(i as int)),
                ids_increasing(kept@),
                ids_below(kept@, self.next_event_id),
                forall|a: int, j: int|
                    0 <= a < kept@.len() && i <= j < count ==> #[trigger] kept@[a].id
                        < #[trigger] events[j].id,
        {
            let event = self.tminus_events[i];
            proof {
                reveal_with_fuel(Seq::filter, 1);
                assert(events.take(i + 1).drop_last() =~= events.take(i as int));
            }
            if event.fired {
                fired.push(event);
            } else {
                kept.push(event);
            }
        }
        proof {
            assert(events.take(count as int) =~= events);
            lemma_drain_in_order(events);
        }
        self.tminus_events = kept;
        fired
    }

    /// Get the scheduled t-minus events that have not been drained yet, in
    /// the order they were scheduled; their ids grow along the slice.
    pub fn pending_events(&self) -> (events: &[TMinusEvent])
        ensures
            events@ == self@.events,
            ids_increasing(events@),
            ids_below(events@, self@.next_event_id),
    {
        proof {
            use_type_invariant(self);
        }
        self.tminus_events.as_slice()
    }
}

/// Draining splits the events in two without losing or duplicating any:
/// the drained events are exactly the fired ones and those left exactly the
/// unfired ones, both in their order, so a second drain returns nothing and
/// leaves the events as they are.
pub proof fn lemma_drain_partitions(events: Seq<TMinusEvent>)
    ensures
        fired_events(events).len() + unfired_events(events).len() == events.len(),
        events.to_multiset() =~= fired_events(events).to_multiset().add(
            unfired_events(events).to_multiset(),
        ),
        forall|i: int| 0 <= i < fired_events(events).len() ==> #[trigger] fired_events(events)[i].fired,
        forall|i: int|
            0 <= i < unfired_events(events).len() ==> !#[trigger] unfired_events(events)[i].fired,
        fired_events(unfired_events(events)) =~= Seq::<TMinusEvent>::empty(),
        unfired_events(unfired_events(events)) =~= unfired_events(events),
    decreases events.len(),
{
    broadcast use vstd::seq_lib::group_to_multiset_ensures;
    broadcast use vstd::multiset::group_multiset_axioms;

    reveal_with_fuel(Seq::filter, 1);
    if events.len() == 0 {
        assert(fired_events(events) =~= Seq::<TMinusEvent>::empty());
        assert(unfired_events(events) =~= Seq::<TMinusEvent>::empty());
        assert(unfired_events(unfired_events(events)) =~= Seq::<TMinusEvent>::empty());
    } else {
        let rest = events.drop_last();
        let last = events.last();
        lemma_drain_partitions(rest);
        assert(events =~= rest.push(last));
        rest.lemma_filter_push(last, |event: TMinusEvent| event.fired);
        rest.lemma_filter_push(last, |event: TMinusEvent| !event.fired);
        if last.fired {
            assert(fired_events(events) == fired_events(rest).push(last));
            assert(unfired_events(events) == unfired_events(rest));
        } else {
            assert(fired_events(events) == fired_events(rest));
            assert(unfired_events(events) == unfired_events(rest).push(last));
            let kept = unfired_events(rest);
            kept.lemma_filter_push(last, |event: TMinusEvent| event.fired);
            kept.lemma_filter_push(last, |event: TMinusEvent| !event.fired);
        }
    }
}

/// Every new clock is consistent.
pub proof fn lemma_new_clock_consistent(config: TimingConfig)
    ensures
        clock_consistent(initial_state(config)),
{
}

/// A tick keeps a clock consistent: the tempo stays within the limits, and an
/// event is marked fired exactly when the new beat reaches its fire beat.
pub proof fn lemma_tick_keeps_consistent(state: ClockState)
    requires
        clock_consistent(state),
        tick_allowed(state),
    ensures
        clock_consistent(ticked(state)),
{
    let lo = state.config.bpm_min as int;
    let hi = state.config.bpm_max as int;
    if lo <= hi {
        lemma_tempo_step_within_limits(state.bpm as int, target_of(state) as int, lo, hi);
    }
    let after = ticked(state);
    assert forall|i: int, j: int| 0 <= i < j < after.events.len() implies #[trigger] after.events[i].id
        < #[trigger] after.events[j].id by {
        assert(state.events[i].id < state.events[j].id);
    }
    assert forall|i: int| 0 <= i < after.events.len() implies #[trigger] after.events[i].id
        < after.next_event_id by {
        assert(state.events[i].id < state.next_event_id);
    }
    assert forall|i: int| 0 <= i < after.events.len() implies (#[trigger] after.events[i]).fired
        == (after.events[i].fire_at_beat <= after.beat_count) by {
        assert(state.events[i].fired == (state.events[i].fire_at_beat <= state.beat_count));
    }
}

/// An energy change keeps a clock consistent.
pub proof fn lemma_set_energy_keeps_consistent(state: ClockState, energy: EnergyLevel)
    requires
        clock_consistent(state),
    ensures
        clock_consistent(with_energy(state, energy)),
{
}

/// The event a schedule creates lies in the future, `n_beats` before a
/// downbeat, and no earlier future beat is.
pub proof fn lemma_schedule_lands_ahead(state: ClockState, n_beats: u32)
    requires
        schedule_allowed(state, n_beats),
    ensures
        state.beat_count < tminus_fire_beat(
            state.beat_count as int,
            state.config.downbeat_interval as int,
            n_beats as int,
        ),
        tminus_fire_beat(
            state.beat_count as int,
            state.config.downbeat_interval as int,
            n_beats as int,
        ) <= u64::MAX,
        state.config.downbeat_interval > 0 ==> is_downbeat_number(
            tminus_fire_beat(
                state.beat_count as int,
                state.config.downbeat_interval as int,
                n_beats as int,
            ) + n_beats,
            state.config.downbeat_interval as int,
        ),
        state.config.downbeat_interval > 0 ==> forall|fire: int|
            state.beat_count < fire < tminus_fire_beat(
                state.beat_count as int,
                state.config.downbeat_interval as int,
                n_beats as int,
            ) ==> !#[trigger] is_downbeat_number(
                fire + n_beats,
                state.config.downbeat_interval as int,
            ),
{
    let (count, interval, n) = (
        state.beat_count as int,
        state.config.downbeat_interval as int,
        n_beats as int,
    );
    if interval > 0 {
        lemma_tminus_fire_beat(count, interval, n);
    } else {
        // Only possible before the first beat with no room needed.
        assert(count == 0 && beats_to_next_downbeat(count, interval) > n);
        assert(tminus_reach(count, interval, n) == 1);
    }
}

/// Scheduling keeps a clock consistent: the new event lies in the future and
/// has not fired.
pub proof fn lemma_schedule_keeps_consistent(state: ClockState, n_beats: u32, callback_id: u64)
    requires
        clock_consistent(state),
        schedule_allowed(state, n_beats),
    ensures
        clock_consistent(scheduled(state, n_beats, callback_id)),
{
    lemma_schedule_lands_ahead(state, n_beats);
    let after = scheduled(state, n_beats, callback_id);
    let event = scheduled_event(state, n_beats, callback_id);
    assert forall|i: int, j: int| 0 <= i < j < after.events.len() implies #[trigger] after.events[i].id
        < #[trigger] after.events[j].id by {
        if j < state.events.len() {
            assert(state.events[i].id < state.events[j].id);
        } else {
            assert(state.events[i].id < state.next_event_id);
        }
    }
    assert forall|i: int| 0 <= i < after.events.len() implies #[trigger] after.events[i].id
        < after.next_event_id by {
        if i < state.events.len() {
            assert(state.events[i].id < state.next_event_id);
        }
    }
    assert forall|i: int| 0 <= i < after.events.len() implies (#[trigger] after.events[i]).fired
        == (after.events[i].fire_at_beat <= after.beat_count) by {
        if i < state.events.len() {
            assert(state.events[i].fired == (state.events[i].fire_at_beat <= state.beat_count));
        } else {
            assert(after.events[i] == event);
        }
    }
}

/// Draining keeps a clock consistent.
pub proof fn lemma_drain_keeps_consistent(state: ClockState)
    requires
        clock_consistent(state),
    ensures
        clock_consistent(drained(state)),
{
    let kept = unfired_events(state.events);
    lemma_drawn_from(state.events);
    lemma_kept_in_order(state.events);
    assert forall|i: int| 0 <= i < kept.len() implies #[trigger] kept[i].id
        < state.next_event_id by {
        let k = choose|k: int| 0 <= k < state.events.len() && state.events[k] == kept[i];
        assert(state.events[k].id < state.next_event_id);
    }
    assert forall|i: int| 0 <= i < kept.len() implies (#[trigger] kept[i]).fired == (
    kept[i].fire_at_beat <= state.beat_count) by {
        let k = choose|k: int| 0 <= k < state.events.len() && state.events[k] == kept[i];
        assert(state.events[k].fired == (state.events[k].fire_at_beat <= state.beat_count));
    }
}

/// Every drained and every kept event is one of the events drained from.
proof fn lemma_drawn_from(events: Seq<TMinusEvent>)
    ensures
        forall|i: int|
            0 <= i < fired_events(events).len() ==> events.contains(
                #[trigger] fired_events(events)[i],
            ),
        forall|i: int|
            0 <= i < unfired_events(events).len() ==> events.contains(
                #[trigger] unfired_events(events)[i],
            ),
{
    let fired = fired_events(events);
    let kept = unfired_events(events);
    assert forall|i: int| 0 <= i < fired.len() implies events.contains(#[trigger] fired[i]) by {
        assert(fired.contains(fired[i]));
        events.lemma_filter_contains_rev(|event: TMinusEvent| event.fired, fired[i]);
    }
    assert forall|i: int| 0 <= i < kept.len() implies events.contains(#[trigger] kept[i]) by {
        assert(kept.contains(kept[i]));
        events.lemma_filter_contains_rev(|event: TMinusEvent| !event.fired, kept[i]);
    }
}

/// The events a drain keeps, taken from a sequence with growing ids, still
/// have growing ids.
proof fn lemma_kept_in_order(events: Seq<TMinusEvent>)
    requires
        ids_increasing(events),
    ensures
        ids_increasing(unfired_events(events)),
    decreases events.len(),
{
    reveal_with_fuel(Seq::filter, 1);
    if events.len() > 0 {
        let rest = events.drop_last();
        let last = events.last();
        assert(events =~= rest.push(last));
        lemma_kept_in_order(rest);
        lemma_drawn_from(rest);
        rest.lemma_filter_push(last, |event: TMinusEvent| !event.fired);
        let kept = unfired_events(rest);
        assert forall|i: int| 0 <= i < kept.len() implies #[trigger] kept[i].id < last.id by {
            let k = choose|k: int| 0 <= k < rest.len() && rest[k] == kept[i];
            assert(events[k] == rest[k]);
            assert(events[k].id < events[events.len() - 1].id);
        }
    }
}

/// Each fired event is delivered at most once: once drained, its id is
/// retired, and a retired id stays retired through ticks, energy changes,
/// schedules and drains, so no later drain returns it and it is never
/// pending again.
pub proof fn lemma_drained_event_retired(state: ClockState, i: int)
    requires
        ids_increasing(state.events),
        ids_below(state.events, state.next_event_id),
        0 <= i < fired_events(state.events).len(),
    ensures
        id_retired(drained(state), fired_events(state.events)[i].id),
{
    let fired = fired_events(state.events);
    let kept = unfired_events(state.events);
    broadcast use vstd::seq_lib::group_filter_ensures;

    lemma_drawn_from(state.events);
    let a = choose|a: int| 0 <= a < state.events.len() && state.events[a] == fired[i];
    assert(state.events[a].id < state.next_event_id);
    assert forall|j: int| 0 <= j < kept.len() implies (#[trigger] kept[j]).id != fired[i].id by {
        let b = choose|b: int| 0 <= b < state.events.len() && state.events[b] == kept[j];
        assert(a != b);
        if a < b {
            assert(state.events[a].id < state.events[b].id);
        } else {
            assert(state.events[b].id < state.events[a].id);
        }
    }
}

/// A retired id stays retired through every operation, and a drain never
/// returns it.
pub proof fn lemma_retired_id_stays_retired(
    state: ClockState,
    id: u64,
    energy: EnergyLevel,
    n_beats: u32,
    callback_id: u64,
)
    requires
        id_retired(state, id),
    ensures
        id_retired(ticked(state), id),
        id_retired(with_energy(state, energy), id),
        id_retired(drained(state), id),
        state.next_event_id < u64::MAX ==> id_retired(scheduled(state, n_beats, callback_id), id),
        forall|i: int|
            0 <= i < fired_events(state.events).len() ==> (#[trigger] fired_events(
                state.events,
            )[i]).id != id,
{
    let after = ticked(state);
    assert forall|i: int| 0 <= i < after.events.len() implies (#[trigger] after.events[i]).id
        != id by {
        assert(state.events[i].id != id);
    }
    broadcast use vstd::seq_lib::group_filter_ensures;

    lemma_drawn_from(state.events);
    let kept = unfired_events(state.events);
    assert forall|j: int| 0 <= j < kept.len() implies (#[trigger] kept[j]).id != id by {
        let b = choose|b: int| 0 <= b < state.events.len() && state.events[b] == kept[j];
        assert(state.events[b].id != id);
    }
    let fired = fired_events(state.events);
    assert forall|j: int| 0 <= j < fired.len() implies (#[trigger] fired[j]).id != id by {
        let b = choose|b: int| 0 <= b < state.events.len() && state.events[b] == fired[j];
        assert(state.events[b].id != id);
    }
    if state.next_event_id < u64::MAX {
        let later = scheduled(state, n_beats, callback_id);
        assert forall|i: int| 0 <= i < later.events.len() implies (#[trigger] later.events[i]).id
            != id by {
            if i < state.events.len() {
                assert(state.events[i].id != id);
            }
        }
    }
}

/// Every operation keeps a clock consistent.
pub proof fn lemma_op_keeps_consistent(state: ClockState, op: ClockOp)
    requires
        clock_consistent(state),
        op_allowed(state, op),
    ensures
        clock_consistent(apply_op(state, op)),
{
    match op {
        ClockOp::Tick => lemma_tick_keeps_consistent(state),
        ClockOp::SetEnergy(energy) => lemma_set_energy_keeps_consistent(state, energy),
        ClockOp::Schedule(n_beats, callback_id) => lemma_schedule_keeps_consistent(
            state,
            n_beats,
            callback_id,
        ),
        ClockOp::Drain => lemma_drain_keeps_consistent(state),
    }
}

/// Every clock reached from a new one by allowed operations is consistent:
/// event ids grow and stay below the next id, the tempo lies within the
/// limits where they form a range, and exactly the events whose fire beat
/// has been reached have fired, so the unfired ones lie ahead.
pub proof fn lemma_reachable_clock_consistent(config: TimingConfig, ops: Seq<ClockOp>)
    requires
        ops_allowed(initial_state(config), ops),
    ensures
        clock_consistent(run_ops(initial_state(config), ops)),
{
    lemma_new_clock_consistent(config);
    lemma_run_keeps_consistent(initial_state(config), ops);
}

/// Allowed operations keep a consistent clock consistent.
pub proof fn lemma_run_keeps_consistent(state: ClockState, ops: Seq<ClockOp>)
    requires
        clock_consistent(state),
        ops_allowed(state, ops),
    ensures
        clock_consistent(run_ops(state, ops)),
    decreases ops.len(),
{
    if ops.len() > 0 {
        lemma_op_keeps_consistent(state, ops[0]);
        lemma_run_keeps_consistent(apply_op(state, ops[0]), ops.drop_first());
    }
}

/// A fired event is delivered at most once: after the drain that returns it,
/// no sequence of allowed operations brings its id back, so it is never
/// pending again and no later drain returns it.
pub proof fn lemma_delivered_once(state: ClockState, i: int, ops: Seq<ClockOp>)
    requires
        clock_consistent(state),
        0 <= i < fired_events(state.events).len(),
        ops_allowed(drained(state), ops),
    ensures
        id_retired(run_ops(drained(state), ops), fired_events(state.events)[i].id),
        forall|j: int|
            0 <= j < fired_events(run_ops(drained(state), ops).events).len() ==> (
            #[trigger] fired_events(run_ops(drained(state), ops).events)[j]).id
                != fired_events(state.events)[i].id,
{
    let id = fired_events(state.events)[i].id;
    lemma_drained_event_retired(state, i);
    lemma_run_keeps_retired(drained(state), ops, id);
    lemma_retired_id_stays_retired(
        run_ops(drained(state), ops),
        id,
        EnergyLevel::Medium,
        0,
        0,
    );
}

/// A retired id stays retired through any sequence of allowed operations.
pub proof fn lemma_run_keeps_retired(state: ClockState, ops: Seq<ClockOp>, id: u64)
    requires
        id_retired(state, id),
        ops_allowed(state, ops),
    ensures
        id_retired(run_ops(state, ops), id),
    decreases ops.len(),
{
    if ops.len() > 0 {
        let (energy, n_beats, callback_id) = match ops[0] {
            ClockOp::SetEnergy(energy) => (energy, 0u32, 0u64),
            ClockOp::Schedule(n_beats, callback_id) => (EnergyLevel::Medium, n_beats, callback_id),
            _ => (EnergyLevel::Medium, 0u32, 0u64),
        };
        lemma_retired_id_stays_retired(state, id, energy, n_beats, callback_id);
        lemma_run_keeps_retired(apply_op(state, ops[0]), ops.drop_first(), id);
    }
}

/// The events a drain returns are the fired ones, each once, in the order
/// they were scheduled: with ids growing along the events, they grow along
/// what a drain returns and along what it keeps, and an event is returned
/// exactly when it is one of the events and has fired.
pub proof fn lemma_drain_in_order(events: Seq<TMinusEvent>)
    requires
        ids_increasing(events),
    ensures
        ids_increasing(fired_events(events)),
        ids_increasing(unfired_events(events)),
        forall|event: TMinusEvent|
            #[trigger] fired_events(events).contains(event) <==> events.contains(event)
                && event.fired,
        forall|event: TMinusEvent|
            #[trigger] unfired_events(events).contains(event) <==> events.contains(event)
                && !event.fired,
    decreases events.len(),
{
    broadcast use vstd::seq_lib::group_filter_ensures;

    reveal_with_fuel(Seq::filter, 1);
    lemma_kept_in_order(events);
    lemma_drawn_from(events);
    assert forall|event: TMinusEvent| #[trigger]
        fired_events(events).contains(event) implies events.contains(event) && event.fired by {
        let k = choose|k: int|
            0 <= k < fired_events(events).len() && fired_events(events)[k] == event;
        assert(events.contains(fired_events(events)[k]));
    }
    assert forall|event: TMinusEvent| #[trigger]
        unfired_events(events).contains(event) implies events.contains(event) && !event.fired by {
        let k = choose|k: int|
            0 <= k < unfired_events(events).len() && unfired_events(events)[k] == event;
        assert(events.contains(unfired_events(events)[k]));
    }
    if events.len() > 0 {
        let rest = events.drop_last();
        let last = events.last();
        assert(events =~= rest.push(last));
        assert(ids_increasing(rest));
        lemma_drain_in_order(rest);
        lemma_drawn_from(rest);
        rest.lemma_filter_push(last, |event: TMinusEvent| event.fired);
        let fired = fired_events(rest);
        assert forall|i: int| 0 <= i < fired.len() implies #[trigger] fired[i].id < last.id by {
            let k = choose|k: int| 0 <= k < rest.len() && rest[k] == fired[i];
            assert(events[k] == rest[k]);
            assert(events[k].id < events[events.len() - 1].id);
        }
    }
}

/// A new clock holds exactly the configuration it was given, at Medium
/// energy, with no beats and no events, and starts at 80 BPM held within the
/// limits when they form a range (80 otherwise).
pub proof fn lemma_new_clock(config: TimingConfig)
    ensures
        initial_state(config).config == config,
        initial_state(config).energy == EnergyLevel::Medium,
        initial_state(config).beat_count == 0,
        initial_state(config).events.len() == 0,
        initial_state(config).next_event_id == 0,
        initial_state(config).bpm == (if config.bpm_min <= config.bpm_max && 80 < config.bpm_min {
            config.bpm_min
        } else if config.bpm_min <= config.bpm_max && 80 > config.bpm_max {
            config.bpm_max
        } else {
            80
        }),
{
}

/// What a tick does: the beat it returns is the next beat number, carries the
/// clock's energy level, is a downbeat exactly when the beats before it fill
/// whole groups, and is an off-beat otherwise. The clock keeps its
/// configuration, energy and next id, counts one more beat, and keeps every
/// event as it was except that an event has fired once its fire beat is
/// reached.
pub proof fn lemma_tick_effect(state: ClockState, energy: EnergyLevel)
    requires
        state.beat_count < u64::MAX,
    ensures
        tick_beat(state).beat_number == state.beat_count + 1,
        tick_beat(state).energy == state.energy,
        tick_beat(with_energy(state, energy)).energy == energy,
        tick_beat(state).is_downbeat == ((state.beat_count as int) % (
        state.config.downbeat_interval as int) == 0),
        tick_beat(state).is_offbeat == !tick_beat(state).is_downbeat,
        ticked(state).config == state.config,
        ticked(state).energy == state.energy,
        ticked(state).next_event_id == state.next_event_id,
        ticked(state).beat_count == state.beat_count + 1,
        ticked(state).events.len() == state.events.len(),
        forall|i: int|
            0 <= i < state.events.len() ==> {
                let before = state.events[i];
                let after = #[trigger] ticked(state).events[i];
                &&& after.id == before.id
                &&& after.callback_id == before.callback_id
                &&& after.n_beats == before.n_beats
                &&& after.fire_at_beat == before.fire_at_beat
                &&& after.fired == (before.fired || before.fire_at_beat <= state.beat_count + 1)
            },
{
}

/// An energy change sets the level, and with it the target (66, 80, 98 or
/// 114 BPM), and changes nothing else.
pub proof fn lemma_set_energy_effect(state: ClockState, energy: EnergyLevel)
    ensures
        with_energy(state, energy).energy == energy,
        target_of(with_energy(state, energy)) == (match energy {
            EnergyLevel::Low => 66u32,
            EnergyLevel::Medium => 80u32,
            EnergyLevel::High => 98u32,
            EnergyLevel::Critical => 114u32,
        }),
        with_energy(state, energy).config == state.config,
        with_energy(state, energy).bpm == state.bpm,
        with_energy(state, energy).beat_count == state.beat_count,
        with_energy(state, energy).events == state.events,
        with_energy(state, energy).next_event_id == state.next_event_id,
{
}

/// What scheduling does: the new event gets the next id, the callback id and
/// beat count asked for, has not fired, and is appended after the events
/// already held, which stay as they were; the next id grows by one and
/// nothing else changes.
pub proof fn lemma_schedule_effect(state: ClockState, n_beats: u32, callback_id: u64)
    requires
        state.next_event_id < u64::MAX,
    ensures
        scheduled_event(state, n_beats, callback_id).id == state.next_event_id,
        scheduled_event(state, n_beats, callback_id).callback_id == callback_id,
        scheduled_event(state, n_beats, callback_id).n_beats == n_beats,
        !scheduled_event(state, n_beats, callback_id).fired,
        scheduled(state, n_beats, callback_id).events.len() == state.events.len() + 1,
        scheduled(state, n_beats, callback_id).events.last() == scheduled_event(
            state,
            n_beats,
            callback_id,
        ),
        forall|i: int|
            0 <= i < state.events.len() ==> #[trigger] scheduled(
                state,
                n_beats,
                callback_id,
            ).events[i] == state.events[i],
        scheduled(state, n_beats, callback_id).next_event_id == state.next_event_id + 1,
        scheduled(state, n_beats, callback_id).config == state.config,
        scheduled(state, n_beats, callback_id).bpm == state.bpm,
        scheduled(state, n_beats, callback_id).beat_count == state.beat_count,
        scheduled(state, n_beats, callback_id).energy == state.energy,
{
}

/// A drain changes only the events.
pub proof fn lemma_drain_effect(state: ClockState)
    ensures
        drained(state).config == state.config,
        drained(state).bpm == state.bpm,
        drained(state).beat_count == state.beat_count,
        drained(state).energy == state.energy,
        drained(state).next_event_id == state.next_event_id,
{
}

} // verus!
