//! Fog of war over an unbounded grid of square chunks.
//!
//! Vision providers uncover the chunks whose centre lies within their
//! range; a registry remembers which chunks are visible now, which were
//! ever explored, and which are kept loaded around the camera.
//!
//! Everything is counted in whole numbers, so that every rule is exact:
//! positions and lengths in world units of the caller's choosing, times in
//! milliseconds on a clock that does not run backwards.

pub mod chunk;
pub mod fog;
pub mod laws;
pub mod mapper;
pub mod node;
pub mod sight;
pub mod vision_compute;
