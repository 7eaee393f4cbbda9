//! The decisions of the atmospherics host adapter: which cameras carry the pipeline, what a
//! weatherscape root is missing, when the weather package is reloaded and republished, when the
//! pipeline's textures are reissued, and the sun clock's hold. Entities are their `u64` bits.

pub mod authoring;
pub mod cameras;
pub mod exposure;
pub mod package;
pub mod textures;
