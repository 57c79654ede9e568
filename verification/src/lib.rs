//! Core of a debugging visualizer for sequences of 2D vector scenes:
//! the scene data model, its binary encoding, a textual authoring grammar,
//! deterministic tag coloring, viewport transforms and hit testing.
//!
//! Coordinates are exact fixed-point values ([`scene::UNIT`] subunits per
//! canvas or screen unit), so every operation here is exact integer
//! arithmetic with a precise contract.

pub mod scene;
pub mod codec;
pub mod color;
pub mod transform;
pub mod geometry;
pub mod parser;
