use vstd::prelude::*;

verus! {

/// Energy levels that drive BPM adaptation.
#[derive(Debug, Clone, Copy, PartialEq, Eq, Structural)]
pub enum EnergyLevel {
    Low,
    Medium,
    High,
    Critical,
}

/// The BPM range (lowest, highest) that belongs to an energy level, in whole
/// beats per minute.
pub open spec fn energy_bpm_range(energy: EnergyLevel) -> (u32, u32) {
    match energy {
        EnergyLevel::Low => (60, 72),
        EnergyLevel::Medium => (72, 88),
        EnergyLevel::High => (88, 108),
        EnergyLevel::Critical => (108, 120),
    }
}

/// The midpoint of an energy level's BPM range.
pub open spec fn energy_target_bpm(energy: EnergyLevel) -> u32 {
    ((energy_bpm_range(energy).0 + energy_bpm_range(energy).1) / 2) as u32
}

impl EnergyLevel {
    /// Returns the target BPM range (min, max) for this energy level.
    pub fn bpm_range(&self) -> (range: (u32, u32))
        ensures
            range == energy_bpm_range(*self),
    {
        match self {
            EnergyLevel::Low => (60, 72),
            EnergyLevel::Medium => (72, 88),
            EnergyLevel::High => (88, 108),
            EnergyLevel::Critical => (108, 120),
        }
    }

    /// Returns the midpoint target BPM for this energy level.
    pub fn target_bpm(&self) -> (bpm: u32)
        ensures
            bpm == energy_target_bpm(*self),
            energy_bpm_range(*self).0 <= bpm <= energy_bpm_range(*self).1,
    {
        let (lo, hi) = self.bpm_range();
        (lo + hi) / 2
    }
}

/// Every energy level's target lies inside its own range, and every range
/// lies inside the default clock limits of 60 to 120 BPM; neighbouring levels
/// share their boundary, so the ranges cover 60 to 120 without gaps. The
/// targets are 66, 80, 98 and 114 BPM.
pub proof fn lemma_energy_ranges(energy: EnergyLevel)
    ensures
        energy_bpm_range(energy).0 <= energy_target_bpm(energy) <= energy_bpm_range(energy).1,
        60 <= energy_bpm_range(energy).0 < energy_bpm_range(energy).1 <= 120,
        energy_bpm_range(EnergyLevel::Low).1 == energy_bpm_range(EnergyLevel::Medium).0,
        energy_bpm_range(EnergyLevel::Medium).1 == energy_bpm_range(EnergyLevel::High).0,
        energy_bpm_range(EnergyLevel::High).1 == energy_bpm_range(EnergyLevel::Critical).0,
        energy_bpm_range(EnergyLevel::Low).0 == 60,
        energy_bpm_range(EnergyLevel::Critical).1 == 120,
        energy_target_bpm(EnergyLevel::Low) == 66,
        energy_target_bpm(EnergyLevel::Medium) == 80,
        energy_target_bpm(EnergyLevel::High) == 98,
        energy_target_bpm(EnergyLevel::Critical) == 114,
{
}

} // verus!
