//! Where the audio goes.

pub mod pipewire_sink;
pub mod ring;
