//! Errors of the renderer.

use vstd::prelude::*;

use crate::backend::renderer::vulkan::formats::Fourcc;

verus! {

/// The Vulkan result of a lost device.
pub const ERROR_DEVICE_LOST: i32 = -4;

/// The Vulkan result of a failed initialization.
pub const ERROR_INITIALIZATION_FAILED: i32 = -3;

/// Error returned by the renderer and its frames.
#[derive(Debug, PartialEq, Eq)]
pub enum VulkanError {
    /// A Vulkan API call returned an error.
    Vk(i32),
    /// The physical device does not support a required Vulkan version.
    UnsupportedVersion(u32, u32),
    /// A required device extension is not supported.
    MissingExtension(&'static str),
    /// No suitable queue family was found.
    NoGraphicsQueue,
    /// No suitable memory type was found for an allocation.
    NoMemoryType,
    /// The given buffer has an unsupported pixel format.
    UnsupportedFormat(Fourcc),
    /// The given buffer has an unsupported format modifier.
    UnsupportedModifier(Fourcc),
    /// The given shared memory format is not supported.
    UnsupportedWlPixelFormat(u32),
    /// The given buffer was not accessible.
    BufferAccessError,
    /// The provided buffer's size did not match the requested one.
    UnexpectedSize,
    /// The requested operation is out of bounds of the target.
    OutOfBounds,
    /// The texture cannot be updated (e.g. imported from a dmabuf).
    NotWritable,
    /// Source and destination of a blit are the same.
    BlitSameImage,
    /// A custom pass referenced a texture that is not renderer-owned.
    ForeignTextureInPass,
    /// Waiting for a sync point was interrupted.
    SyncInterrupted,
    /// A shader module or pipeline could not be created.
    PipelineCreation,
    /// A custom shader failed to compile.
    ShaderCompile(String),
    /// The dmabuf could not be imported.
    DmabufImport(&'static str),
}

/// What an error means for the buffers of a compositor.
#[derive(Debug, Clone, Copy, PartialEq, Eq, Structural)]
pub enum SwapFailure {
    /// The context is lost, and has to be set up anew.
    ContextLost,
    /// The operation failed, but another one may succeed.
    TemporaryFailure,
}

impl VulkanError {
    /// Whether the error is an unrecoverable device or setup failure.
    pub open spec fn is_fatal(self) -> bool {
        ||| self == VulkanError::Vk(ERROR_DEVICE_LOST)
        ||| self == VulkanError::Vk(ERROR_INITIALIZATION_FAILED)
        ||| self is UnsupportedVersion
        ||| self is MissingExtension
        ||| self is NoGraphicsQueue
        ||| self is PipelineCreation
    }

    /// What the error means: unrecoverable device or setup failures lose the context, everything
    /// else is specific to one operation or buffer.
    pub fn swap_failure(&self) -> (failure: SwapFailure)
        ensures
            failure == if self.is_fatal() {
                SwapFailure::ContextLost
            } else {
                SwapFailure::TemporaryFailure
            },
    {
        match self {
            VulkanError::Vk(code) => if *code == ERROR_DEVICE_LOST || *code
                == ERROR_INITIALIZATION_FAILED {
                SwapFailure::ContextLost
            } else {
                SwapFailure::TemporaryFailure
            },
            VulkanError::UnsupportedVersion(..)
            | VulkanError::MissingExtension(_)
            | VulkanError::NoGraphicsQueue
            | VulkanError::PipelineCreation => SwapFailure::ContextLost,
            _ => SwapFailure::TemporaryFailure,
        }
    }
}

} // verus!
