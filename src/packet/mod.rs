//! The packet catalog of the two protocols.
pub mod login;
pub mod patch;
