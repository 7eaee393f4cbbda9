//! Verified core of the material, diagnostics and authoring logic.

pub mod atmospherics;
pub mod content_problems;
pub mod diagnostic;
pub mod nesting;
pub mod precompiled;
pub mod preprocess;
pub mod text;
pub mod validate;
