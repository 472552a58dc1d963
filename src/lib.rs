//! String art path generation: chords between pegs on a ring, chosen step by
//! step from a pairwise score cache, a coverage map and a selection engine.
//!
//! Scores are fixed-point integers in millionths (see
//! [`engine::SCORE_SCALE`]); computing them from pixels is left to the
//! caller, through the scorer handed to [`engine::StringPath::step`].

pub mod cache;
pub mod chord;
pub mod color;
pub mod coverage;
mod draw;
pub mod engine;
pub mod peg;
pub mod tri_vec;

pub use cache::{ComboCache, StringCombo};
pub use chord::ChordIntersection;
pub use color::ColorSpace;
pub use coverage::{CoverageMap, COVERAGE_CAP};
pub use engine::{ConfigError, PathStep, StringPath, MISS_SCORE, SCORE_SCALE};
pub use peg::PegGroup;
pub use tri_vec::TriVec;
