//! Materialize project trees from preset descriptors, and turn a downloaded
//! preset archive into a confined list of writes.
//!
//! The file system is never touched here: the materializer is a state machine
//! that asks its driver for each read and write, and archive ingestion yields
//! the writes for the driver to carry out.

pub mod paths;
pub mod text;
pub mod preset;
pub mod archive;
pub mod readme;
pub mod materialize;
pub mod world;
