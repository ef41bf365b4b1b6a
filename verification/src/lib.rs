//! Beat-level timing for coordinating speaking agents: a tempo clock that
//! adapts its BPM to an energy level, marks downbeats and off-beats, fires
//! events scheduled a number of beats ahead of a downbeat, and tells each
//! speaking cadence when to talk.

pub mod cadence;
pub mod clock;
pub mod config;
pub mod energy;
pub mod meter;
pub mod tempo;

pub use cadence::{Beat, BeatTiming, Cadence};
pub use clock::{TMinusEvent, TensorClock};
pub use config::TimingConfig;
pub use energy::EnergyLevel;
