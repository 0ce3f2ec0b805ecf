//! Display and rendering backends.

pub mod drm;
pub mod renderer;
