use vstd::prelude::*;

verus! {

/// `bpm` held within `[lo, hi]`.
pub open spec fn clamp_tempo(bpm: int, lo: int, hi: int) -> int {
    if bpm < lo {
        lo
    } else if bpm > hi {
        hi
    } else {
        bpm
    }
}

/// The tempo after one beat: unless it already equals the target, it moves
/// toward the target by at most 2 BPM and is then held within `[lo, hi]`.
pub open spec fn tempo_step(bpm: int, target: int, lo: int, hi: int) -> int {
    if bpm < target {
        clamp_tempo(bpm + if target - bpm < 2 { target - bpm } else { 2 }, lo, hi)
    } else if bpm > target {
        clamp_tempo(bpm - if bpm - target < 2 { bpm - target } else { 2 }, lo, hi)
    } else {
        bpm
    }
}

/// The tempo after `beats` beats at a fixed target.
pub open spec fn tempo_after(bpm: int, target: int, lo: int, hi: int, beats: nat) -> int
    decreases beats,
{
    if beats == 0 {
        bpm
    } else {
        tempo_after(tempo_step(bpm, target, lo, hi), target, lo, hi, (beats - 1) as nat)
    }
}

/// One beat never takes the tempo out of `[lo, hi]` once it is inside, and
/// any beat on which the tempo adapts (it differs from the target) brings it
/// inside: whatever the target, and however often the target changes.
pub proof fn lemma_tempo_step_within_limits(bpm: int, target: int, lo: int, hi: int)
    requires
        lo <= hi,
        (lo <= bpm <= hi) || bpm != target,
    ensures
        lo <= tempo_step(bpm, target, lo, hi) <= hi,
{
}

/// Within the limits the tempo changes gradually: by at most 2 BPM per beat,
/// toward the target and never past it.
pub proof fn lemma_tempo_step_gradual(bpm: int, target: int, lo: int, hi: int)
    requires
        lo <= hi,
        lo <= bpm <= hi,
    ensures
        bpm - 2 <= tempo_step(bpm, target, lo, hi) <= bpm + 2,
        bpm <= target ==> bpm <= tempo_step(bpm, target, lo, hi) <= target,
        target <= bpm ==> target <= tempo_step(bpm, target, lo, hi) <= bpm,
{
}

/// A tempo within the limits stays within them over any number of beats.
pub proof fn lemma_tempo_after_within_limits(bpm: int, target: int, lo: int, hi: int, beats: nat)
    requires
        lo <= hi,
        lo <= bpm <= hi,
    ensures
        lo <= tempo_after(bpm, target, lo, hi, beats) <= hi,
    decreases beats,
{
    if beats > 0 {
        lemma_tempo_step_within_limits(bpm, target, lo, hi);
        lemma_tempo_after_within_limits(
            tempo_step(bpm, target, lo, hi),
            target,
            lo,
            hi,
            (beats - 1) as nat,
        );
    }
}

/// A tempo within the limits reaches the target, held within the limits,
/// after at most half the distance in beats, and stays there.
pub proof fn lemma_tempo_converges(bpm: int, target: int, lo: int, hi: int, beats: nat)
    requires
        lo <= hi,
        lo <= bpm <= hi,
        clamp_tempo(target, lo, hi) - bpm <= 2 * beats,
        bpm - clamp_tempo(target, lo, hi) <= 2 * beats,
    ensures
        tempo_after(bpm, target, lo, hi, beats) == clamp_tempo(target, lo, hi),
    decreases beats,
{
    if beats > 0 {
        lemma_tempo_converges(
            tempo_step(bpm, target, lo, hi),
            target,
            lo,
            hi,
            (beats - 1) as nat,
        );
    }
}

} // verus!
