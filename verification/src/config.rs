use vstd::prelude::*;

verus! {

/// Configuration for timing behavior.
///
/// Tempo limits are whole beats per minute; the swing factor is a percentage.
#[derive(Debug, Clone, Copy, PartialEq, Eq, Structural)]
pub struct TimingConfig {
    /// Minimum allowed BPM.
    pub bpm_min: u32,
    /// Maximum allowed BPM.
    pub bpm_max: u32,
    /// Swing factor in percent, 0–100. 0 = straight, 100 = max swing.
    pub swing_factor: u32,
    /// How many beats between downbeats.
    pub downbeat_interval: u32,
}

/// The default configuration: 60 to 120 BPM, half swing, a downbeat every
/// fourth beat.
pub open spec fn default_timing_config() -> TimingConfig {
    TimingConfig { bpm_min: 60, bpm_max: 120, swing_factor: 50, downbeat_interval: 4 }
}

impl Default for TimingConfig {
    fn default() -> (config: Self)
        ensures
            config == default_timing_config(),
    {
        TimingConfig { bpm_min: 60, bpm_max: 120, swing_factor: 50, downbeat_interval: 4 }
    }
}

} // verus!
