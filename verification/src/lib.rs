//! Building blocks of an audio-visual stimulus: a continuous-phase tone
//! generator, a two-colour flicker driver and the lifecycle of the control
//! loop that hosts them.

pub mod flicker;
pub mod lifecycle;
pub mod phase;
pub mod tone;
pub mod waveform;
