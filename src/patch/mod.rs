//! The patch server's view of the catalog.
pub mod packet;
