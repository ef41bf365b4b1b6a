use vstd::prelude::*;

use crate::energy::EnergyLevel;

verus! {

/// A single beat event.
#[derive(Debug, Clone, Copy, PartialEq, Eq, Structural)]
pub struct Beat {
    /// Sequential beat number (1-based).
    pub beat_number: u64,
    /// True on the first beat of every downbeat group.
    pub is_downbeat: bool,
    /// True on off-beats (every beat that is not a downbeat).
    pub is_offbeat: bool,
    /// Current energy level.
    pub energy: EnergyLevel,
}

/// Timing info for when a cadence should speak on a given beat.
///
/// Times are in hundredths of a second.
#[derive(Debug, Clone, Copy, PartialEq, Eq, Structural)]
pub struct BeatTiming {
    /// Offset within the beat when speech should start (0 = on the beat).
    pub speak_at: u32,
    /// Suggested duration of the speech.
    pub duration: u32,
    /// Whether this beat is affected by swing timing.
    pub is_swing: bool,
}

/// Agent speaking cadence with timing preferences.
#[derive(Debug, Clone, Copy, PartialEq, Eq, Structural)]
pub enum Cadence {
    /// Precise, on-the-beat communication. Speaks on downbeats.
    Technical,
    /// Relaxed, off-beat communication. Speaks on off-beats.
    Casual,
    /// Structured but flexible. Speaks on every other beat.
    Analytical,
    /// Rhythmic, expressive. Speaks on swing beats.
    Poetic,
}

/// The nominal beat length that speech timings are measured against: sixty
/// seconds, in hundredths of a second.
pub open spec fn nominal_beat() -> int {
    6000
}

/// `percent` per cent of the nominal beat, in hundredths of a second.
pub open spec fn part_of_beat(percent: int) -> u32 {
    (nominal_beat() * percent / 100) as u32
}

/// Whether a beat number is odd (the first, third, fifth, ... beat).
pub open spec fn is_odd_beat(beat_number: u64) -> bool {
    beat_number % 2 == 1
}

/// When and how long a cadence speaks on a beat:
/// - Technical: on the beat, for 80% of it;
/// - Casual: on an off-beat at once for 60% of the beat with swing, otherwise
///   from the middle of the beat for 40% of it;
/// - Analytical: on odd beats at once for 70%, on even beats from a quarter
///   of the beat for 30%;
/// - Poetic: for 90% of the beat, starting a third (33%) into it and with
///   swing on off-beats, on the beat otherwise.
pub open spec fn cadence_timing(cadence: Cadence, beat: Beat) -> BeatTiming {
    match cadence {
        Cadence::Technical => BeatTiming {
            speak_at: 0,
            duration: part_of_beat(80),
            is_swing: false,
        },
        Cadence::Casual => if beat.is_offbeat {
            BeatTiming { speak_at: 0, duration: part_of_beat(60), is_swing: true }
        } else {
            BeatTiming { speak_at: part_of_beat(50), duration: part_of_beat(40), is_swing: false }
        },
        Cadence::Analytical => if is_odd_beat(beat.beat_number) {
            BeatTiming { speak_at: 0, duration: part_of_beat(70), is_swing: false }
        } else {
            BeatTiming { speak_at: part_of_beat(25), duration: part_of_beat(30), is_swing: false }
        },
        Cadence::Poetic => BeatTiming {
            speak_at: if beat.is_offbeat { part_of_beat(33) } else { 0 },
            duration: part_of_beat(90),
            is_swing: beat.is_offbeat,
        },
    }
}

/// Whether a cadence speaks on a beat: Technical on downbeats, Casual on
/// off-beats, Analytical on odd beats, Poetic on every beat.
pub open spec fn cadence_speaks(cadence: Cadence, beat: Beat) -> bool {
    match cadence {
        Cadence::Technical => beat.is_downbeat,
        Cadence::Casual => beat.is_offbeat,
        Cadence::Analytical => is_odd_beat(beat.beat_number),
        Cadence::Poetic => true,
    }
}

impl Cadence {
    /// Returns the timing parameters for speaking on a given beat.
    pub fn timing_for_beat(&self, beat: &Beat) -> (timing: BeatTiming)
        ensures
            timing == cadence_timing(*self, *beat),
    {
        // The nominal beat, in hundredths of a second; callers scale by BPM.
        let beat_duration: u32 = 6000;
        match self {
            Cadence::Technical => BeatTiming {
                speak_at: 0,
                duration: beat_duration / 100 * 80,
                is_swing: false,
            },
            Cadence::Casual => {
                if beat.is_offbeat {
                    BeatTiming { speak_at: 0, duration: beat_duration / 100 * 60, is_swing: true }
                } else {
                    BeatTiming {
                        speak_at: beat_duration / 100 * 50,
                        duration: beat_duration / 100 * 40,
                        is_swing: false,
                    }
                }
            },
            Cadence::Analytical => {
                if beat.beat_number % 2 == 1 {
                    BeatTiming { speak_at: 0, duration: beat_duration / 100 * 70, is_swing: false }
                } else {
                    BeatTiming {
                        speak_at: beat_duration / 100 * 25,
                        duration: beat_duration / 100 * 30,
                        is_swing: false,
                    }
                }
            },
            Cadence::Poetic => BeatTiming {
                speak_at: if beat.is_offbeat { beat_duration / 100 * 33 } else { 0 },
                duration: beat_duration / 100 * 90,
                is_swing: beat.is_offbeat,
            },
        }
    }

    /// Whether this cadence should speak on the given beat.
    pub fn should_speak(&self, beat: &Beat) -> (speaks: bool)
        ensures
            speaks == cadence_speaks(*self, *beat),
    {
        match self {
            Cadence::Technical => beat.is_downbeat,
            Cadence::Casual => beat.is_offbeat,
            Cadence::Analytical => beat.beat_number % 2 == 1,
            Cadence::Poetic => true,
        }
    }
}

/// On every beat whose off-beat flag is the negation of its downbeat flag (as
/// on every beat a clock produces), exactly one of Technical and Casual
/// speaks, and Poetic always speaks. Swing applies only to off-beats, and a
/// cadence that swings on a beat speaks on it.
pub proof fn lemma_cadences_on_clock_beats(beat: Beat, cadence: Cadence)
    requires
        beat.is_offbeat == !beat.is_downbeat,
    ensures
        cadence_speaks(Cadence::Technical, beat) != cadence_speaks(Cadence::Casual, beat),
        cadence_speaks(Cadence::Poetic, beat),
        cadence_timing(cadence, beat).is_swing ==> beat.is_offbeat,
        cadence_timing(cadence, beat).is_swing ==> cadence_speaks(cadence, beat),
{
}

/// What each cadence says on a beat, in hundredths of a second of the
/// sixty-second nominal beat: Technical always speaks at once for 48 s;
/// Casual depends only on the off-beat flag (off-beat: at once for 36 s with
/// swing, otherwise from 30 s for 24 s); Analytical depends only on whether
/// the beat number is odd (odd: at once for 42 s, even: from 15 s for 18 s),
/// never on the downbeat or off-beat flags; Poetic speaks for 54 s, from
/// 19.8 s with swing on off-beats and at once otherwise.
pub proof fn lemma_cadence_timings(beat: Beat)
    ensures
        cadence_timing(Cadence::Technical, beat) == (BeatTiming {
            speak_at: 0,
            duration: 4800,
            is_swing: false,
        }),
        cadence_timing(Cadence::Casual, beat) == (if beat.is_offbeat {
            BeatTiming { speak_at: 0, duration: 3600, is_swing: true }
        } else {
            BeatTiming { speak_at: 3000, duration: 2400, is_swing: false }
        }),
        cadence_timing(Cadence::Analytical, beat) == (if beat.beat_number % 2 == 1 {
            BeatTiming { speak_at: 0, duration: 4200, is_swing: false }
        } else {
            BeatTiming { speak_at: 1500, duration: 1800, is_swing: false }
        }),
        cadence_timing(Cadence::Poetic, beat) == (if beat.is_offbeat {
            BeatTiming { speak_at: 1980, duration: 5400, is_swing: true }
        } else {
            BeatTiming { speak_at: 0, duration: 5400, is_swing: false }
        }),
{
}

/// A cadence's timing depends only on what it keys on: two beats with the
/// same number and the same off-beat flag get the same timing from every
/// cadence, whatever their downbeat flags or energy; Analytical gives the
/// same timing to any two beats whose numbers have the same parity.
pub proof fn lemma_cadence_timing_keys(cadence: Cadence, beat: Beat, other: Beat)
    ensures
        beat.beat_number == other.beat_number && beat.is_offbeat == other.is_offbeat
            ==> cadence_timing(cadence, beat) == cadence_timing(cadence, other),
        beat.beat_number % 2 == other.beat_number % 2 ==> cadence_timing(
            Cadence::Analytical,
            beat,
        ) == cadence_timing(Cadence::Analytical, other),
        cadence_timing(Cadence::Technical, beat) == cadence_timing(Cadence::Technical, other),
{
    lemma_cadence_timings(beat);
    lemma_cadence_timings(other);
}

/// When each cadence speaks: Technical exactly on downbeats, Casual exactly
/// on off-beats, Analytical exactly on odd beat numbers whatever the
/// downbeat and off-beat flags (so also on beat 1, a downbeat), Poetic on
/// every beat.
pub proof fn lemma_cadence_speaking(beat: Beat)
    ensures
        cadence_speaks(Cadence::Technical, beat) == beat.is_downbeat,
        cadence_speaks(Cadence::Casual, beat) == beat.is_offbeat,
        cadence_speaks(Cadence::Analytical, beat) == (beat.beat_number % 2 == 1),
        cadence_speaks(Cadence::Poetic, beat),
{
}

} // verus!
