//! Character data carried inside packets.
pub mod settings;
