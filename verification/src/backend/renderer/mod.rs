//! Rendering.

pub mod geometry;
pub mod multigpu;
pub mod region;
pub mod vulkan;
