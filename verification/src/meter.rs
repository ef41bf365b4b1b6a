use vstd::prelude::*;

use vstd::arithmetic::div_mod::{
    lemma_fundamental_div_mod, lemma_fundamental_div_mod_converse_mod, lemma_mod_bound,
};

verus! {

/// Beat `beat_number` is a downbeat when it is the first beat of a group of
/// `interval` beats: beats 1, interval + 1, 2 * interval + 1, ... (every beat
/// when a group has one beat).
pub open spec fn is_downbeat_number(beat_number: int, interval: int) -> bool {
    beat_number >= 1 && (beat_number - 1) % interval == 0
}

/// How many beats after beat `beat_count` the next downbeat comes; reported
/// as 0 before the first beat.
pub open spec fn beats_until_next_downbeat(beat_count: int, interval: int) -> int {
    if beat_count == 0 {
        0
    } else {
        interval - (beat_count - 1) % interval
    }
}

/// How many beats ahead of beat `beat_count` the next downbeat is; before the
/// first beat that is beat 1, one beat ahead.
pub open spec fn beats_to_next_downbeat(beat_count: int, interval: int) -> int {
    if beat_count == 0 {
        1
    } else {
        beats_until_next_downbeat(beat_count, interval)
    }
}

/// How many beats ahead of beat `beat_count` lies the nearest downbeat that
/// leaves room for `n_beats` beats before it: the next downbeat if it is more
/// than `n_beats` ahead, otherwise the first later one (whole intervals on)
/// that is.
pub open spec fn tminus_reach(beat_count: int, interval: int, n_beats: int) -> int {
    let ahead = beats_to_next_downbeat(beat_count, interval);
    if ahead > n_beats {
        ahead
    } else {
        ahead + ((n_beats - ahead) / interval + 1) * interval
    }
}

/// The beat at which an event scheduled `n_beats` before a downbeat fires:
/// `n_beats` before the nearest downbeat that leaves room for them.
pub open spec fn tminus_fire_beat(beat_count: int, interval: int, n_beats: int) -> int {
    beat_count + tminus_reach(beat_count, interval, n_beats) - n_beats
}

/// Scheduling `n_beats` ahead computes within `u64` and divides by no zero.
pub open spec fn tminus_schedulable(beat_count: int, interval: int, n_beats: int) -> bool {
    &&& (beat_count > 0 || beats_to_next_downbeat(beat_count, interval) <= n_beats) ==> interval
        > 0
    &&& beat_count + tminus_reach(beat_count, interval, n_beats) <= u64::MAX
}

/// The next downbeat is 1 to `interval` beats ahead: the beat that many beats
/// ahead is a downbeat and none before it is. Once the clock has started the
/// distance is what `beats_until_next_downbeat` reports; before the first beat
/// the next downbeat is beat 1.
pub proof fn lemma_next_downbeat(beat_count: int, interval: int)
    requires
        interval >= 1,
        beat_count >= 0,
    ensures
        1 <= beats_to_next_downbeat(beat_count, interval) <= interval,
        beat_count >= 1 ==> beats_to_next_downbeat(beat_count, interval)
            == beats_until_next_downbeat(beat_count, interval),
        is_downbeat_number(beat_count + beats_to_next_downbeat(beat_count, interval), interval),
        forall|k: int|
            beat_count < k < beat_count + beats_to_next_downbeat(beat_count, interval)
                ==> !#[trigger] is_downbeat_number(k, interval),
{
    if beat_count == 0 {
        lemma_fundamental_div_mod_converse_mod(0, interval, 0, 0);
    } else {
        let p = (beat_count - 1) % interval;
        let q = (beat_count - 1) / interval;
        lemma_mod_bound(beat_count - 1, interval);
        lemma_fundamental_div_mod(beat_count - 1, interval);
        assert(beat_count - 1 == q * interval + p) by (nonlinear_arith)
            requires
                beat_count - 1 == interval * q + p,
        ;
        let next = beat_count + beats_until_next_downbeat(beat_count, interval);
        assert(next - 1 == (q + 1) * interval + 0) by (nonlinear_arith)
            requires
                next == beat_count + interval - p,
                beat_count - 1 == q * interval + p,
        ;
        lemma_fundamental_div_mod_converse_mod(next - 1, interval, q + 1, 0);
        assert forall|k: int|
            beat_count < k < next implies !#[trigger] is_downbeat_number(k, interval) by {
            let r = k - 1 - q * interval;
            assert(p < r < interval);
            lemma_fundamental_div_mod_converse_mod(k - 1, interval, q, r);
        }
    }
}

/// Before any beat the clock reports 0 beats to the next downbeat, and the
/// first beat is a downbeat.
pub proof fn lemma_first_beat_is_downbeat(interval: int)
    requires
        interval >= 1,
    ensures
        beats_until_next_downbeat(0, interval) == 0,
        is_downbeat_number(1, interval),
{
    lemma_fundamental_div_mod_converse_mod(0, interval, 0, 0);
}

/// Every downbeat after beat `beat_count` lies a whole number of intervals
/// after the next one.
pub proof fn lemma_later_downbeats(beat_count: int, interval: int, beat: int)
    requires
        interval >= 1,
        beat_count >= 0,
        beat > beat_count,
        is_downbeat_number(beat, interval),
    ensures
        beat - beat_count - beats_to_next_downbeat(beat_count, interval) >= 0,
        (beat - beat_count - beats_to_next_downbeat(beat_count, interval)) % interval == 0,
{
    lemma_next_downbeat(beat_count, interval);
    let ahead = beats_to_next_downbeat(beat_count, interval);
    let base = beat_count + ahead - 1;
    let b = base / interval;
    let j = (beat - 1) / interval;
    lemma_fundamental_div_mod(base, interval);
    lemma_fundamental_div_mod(beat - 1, interval);
    assert(base == b * interval && beat - 1 == j * interval) by (nonlinear_arith)
        requires
            base == interval * b + base % interval,
            base % interval == 0,
            beat - 1 == interval * j + (beat - 1) % interval,
            (beat - 1) % interval == 0,
    ;
    assert(j >= b) by (nonlinear_arith)
        requires
            interval >= 1,
            base == b * interval,
            beat - 1 == j * interval,
            beat - 1 > base - interval,
    ;
    assert(beat - 1 - base == (j - b) * interval + 0) by (nonlinear_arith)
        requires
            base == b * interval,
            beat - 1 == j * interval,
    ;
    lemma_fundamental_div_mod_converse_mod(beat - 1 - base, interval, j - b, 0);
}

/// An event scheduled `n_beats` ahead of a downbeat lies in the future and
/// fires exactly `n_beats` before a downbeat, and it is the earliest future
/// beat that does: the nearest downbeat that leaves room is chosen.
pub proof fn lemma_tminus_fire_beat(beat_count: int, interval: int, n_beats: int)
    requires
        interval >= 1,
        beat_count >= 0,
        n_beats >= 0,
    ensures
        beat_count < tminus_fire_beat(beat_count, interval, n_beats),
        is_downbeat_number(tminus_fire_beat(beat_count, interval, n_beats) + n_beats, interval),
        forall|fire: int|
            beat_count < fire < tminus_fire_beat(beat_count, interval, n_beats)
                ==> !#[trigger] is_downbeat_number(fire + n_beats, interval),
{
    lemma_next_downbeat(beat_count, interval);
    let ahead = beats_to_next_downbeat(beat_count, interval);
    let fire_at = tminus_fire_beat(beat_count, interval, n_beats);
    if ahead <= n_beats {
        let q = (n_beats - ahead) / interval;
        let m = q + 1;
        lemma_fundamental_div_mod(n_beats - ahead, interval);
        lemma_mod_bound(n_beats - ahead, interval);
        assert(q * interval <= n_beats - ahead < m * interval) by (nonlinear_arith)
            requires
                n_beats - ahead == interval * q + (n_beats - ahead) % interval,
                0 <= (n_beats - ahead) % interval < interval,
                m == q + 1,
        ;
        // The chosen downbeat is one.
        let base = beat_count + ahead - 1;
        let b = base / interval;
        lemma_fundamental_div_mod(base, interval);
        assert(base + m * interval == (b + m) * interval + 0) by (nonlinear_arith)
            requires
                base == interval * b + base % interval,
                base % interval == 0,
        ;
        lemma_fundamental_div_mod_converse_mod(base + m * interval, interval, b + m, 0);
        assert(fire_at + n_beats - 1 == base + m * interval);
        // No earlier future beat is n_beats before a downbeat.
        assert forall|fire: int|
            beat_count < fire < fire_at implies !#[trigger] is_downbeat_number(
            fire + n_beats,
            interval,
        ) by {
            if is_downbeat_number(fire + n_beats, interval) {
                lemma_later_downbeats(beat_count, interval, fire + n_beats);
                let x = fire + n_beats - beat_count - ahead;
                let k = x / interval;
                lemma_fundamental_div_mod(x, interval);
                assert(false) by (nonlinear_arith)
                    requires
                        x == interval * k + x % interval,
                        x % interval == 0,
                        x > n_beats - ahead,
                        x < m * interval,
                        q * interval <= n_beats - ahead,
                        m == q + 1,
                        interval >= 1,
                ;
            }
        }
    }
}

/// The countdown to the next downbeat drops by one per beat and restarts at
/// `interval` on the beat after a downbeat (and on the first beat).
pub proof fn lemma_countdown(beat_count: int, interval: int)
    requires
        interval >= 1,
        beat_count >= 0,
    ensures
        beats_until_next_downbeat(beat_count + 1, interval) == if beats_until_next_downbeat(
            beat_count,
            interval,
        ) >= 2 {
            beats_until_next_downbeat(beat_count, interval) - 1
        } else {
            interval
        },
{
    if beat_count == 0 {
        lemma_fundamental_div_mod_converse_mod(0, interval, 0, 0);
    } else {
        let p = (beat_count - 1) % interval;
        let q = (beat_count - 1) / interval;
        lemma_mod_bound(beat_count - 1, interval);
        lemma_fundamental_div_mod(beat_count - 1, interval);
        assert(beat_count - 1 == q * interval + p) by (nonlinear_arith)
            requires
                beat_count - 1 == interval * q + p,
        ;
        if p + 1 < interval {
            lemma_fundamental_div_mod_converse_mod(beat_count, interval, q, p + 1);
        } else {
            assert(beat_count == (q + 1) * interval + 0) by (nonlinear_arith)
                requires
                    beat_count - 1 == q * interval + p,
                    p + 1 == interval,
            ;
            lemma_fundamental_div_mod_converse_mod(beat_count, interval, q + 1, 0);
        }
    }
}

} // verus!
