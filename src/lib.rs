//! Turns the tracks of a Standard MIDI File into closed note intervals with
//! start and end times in microseconds.
//!
//! `model` holds the plain data and the meaning of decoding as spec functions,
//! `decoder` the verified executable code, and `laws` the proved properties.
pub mod model;
pub mod decoder;
pub mod laws;
