//! Frost Verb product core: the parameter and preset contracts, the host
//! state format, the panel layout tables, and the integer building blocks of
//! the reverb engine (delay lines, the noise generator, the WAV header).

pub mod delay;
pub mod host;
pub mod noise;
pub mod params;
pub mod preset;
pub mod text;
pub mod ui;
pub mod wav;
