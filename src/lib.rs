//! Generators of add-on packages for the space-trading game Endless Sky.
//!
//! The system shuffler reads the game's declarations of systems, wormholes, planets and
//! story events, records what a change of identity would have to rewrite, and builds a
//! package whose missions switch the universe between seeded presets and back, using
//! only the game's branch / label / action primitives. The map reveal builds a package
//! that marks every system and planet visited.
//!
//! Modules, from the leaves up:
//! - `tree`: declarations as plain values, and their copies;
//! - `order`, `wandom`: text order, and the seeded generator behind the presets;
//! - `records`, `extract`: the persistent attribute records and the scan that builds them;
//! - `delta`: the activation and restoration deltas of each entity;
//! - `dispatcher`, `missions`: the preset dispatcher and the missions around it;
//! - `system_shuffler`, `full_map`: the two packages;
//! - `zippy`: packing a package into a zip archive;
//! - `detection`, `laws`: what is proved of the whole.

pub mod delta;
pub mod detection;
pub mod dispatcher;
pub mod extract;
pub mod full_map;
pub mod laws;
pub mod missions;
pub mod order;
pub mod records;
pub mod system_shuffler;
pub mod tree;
pub mod wandom;
pub mod zippy;
