//! The decisions of a renderer on top of Vulkan.
//!
//! All work is ordered by a single timeline semaphore: every queue submission signals the next
//! timeline point and resources are destroyed once their last-use point was reached.

pub mod color_params;
pub mod commands;
pub mod custom;
pub mod device;
pub mod dmabuf_cache;
pub mod draw;
pub mod error;
pub mod fence;
pub mod formats;
pub mod frame;
pub mod frame_blits;
pub mod frame_draws;
pub mod frame_uses;
pub mod frame_validity;
pub mod import;
pub mod object_promises;
pub mod pipelines;
pub mod promises;
pub mod queue;
pub mod renderer;
pub mod resource_promises;
pub mod setup;
pub mod texture;
pub mod transfer;
pub mod upload;
