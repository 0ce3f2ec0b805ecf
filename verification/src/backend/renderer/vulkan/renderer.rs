//! The state of a renderer.

use vstd::prelude::*;

use crate::backend::renderer::vulkan::color_params::ColorBlendParams;
use crate::backend::renderer::vulkan::commands::TextureFilter;
use crate::backend::renderer::vulkan::custom;
use crate::backend::renderer::vulkan::custom::shader_code;
use crate::backend::renderer::vulkan::device;
use crate::backend::renderer::vulkan::device::{
    completed_point, CleanupItem, CleanupQueue, Deferred,
};
use crate::backend::renderer::vulkan::error::VulkanError;
use crate::backend::renderer::vulkan::formats::FormatTable;
use crate::backend::renderer::vulkan::pipelines::{DescriptorPools, FixedObjects, PipelineCache};
use crate::backend::renderer::vulkan::queue;
use crate::backend::renderer::vulkan::queue::{ImplicitSync, Submissions, SubmissionsModel};
use crate::backend::renderer::vulkan::setup;
use crate::backend::renderer::vulkan::setup::DevicePlan;
use crate::backend::renderer::vulkan::texture::Filters;

verus! {

/// The debug flag that tints textures.
pub const DEBUG_TINT: u32 = 1;

/// A renderer.
#[derive(Debug)]
pub struct VulkanRenderer {
    pub queue_family: u32,
    /// Minimum alignment for the offsets of parameter blocks.
    pub params_align: u32,
    pub formats: FormatTable,
    pub command_pool: u64,
    pub objects: FixedObjects,
    pub pipelines: PipelineCache,
    pub descriptor_pools: DescriptorPools,
    pub submissions: Submissions,
    pub cleanup: CleanupQueue,
    pub implicit_sync: ImplicitSync,
    /// The filters with which textures are scaled.
    pub filters: Filters,
    pub debug_flags: u32,
    /// The parameters for texture draws that have none of their own.
    pub default_color_params: Option<ColorBlendParams>,
}

/// What is to be done when submissions have completed.
#[derive(Debug)]
pub struct Cleanup {
    /// Command buffers to reset.
    pub command_buffers: Vec<u64>,
    /// Resources to destroy.
    pub items: Vec<CleanupItem>,
}

impl VulkanRenderer {
    /// Returns the list of device extensions that a renderer requires.
    ///
    /// The `VK_KHR_external_semaphore_fd` extension is used additionally, if available, to
    /// support exporting and importing sync files.
    pub fn required_extensions() -> (extensions: Vec<&'static str>)
        ensures
            setup::texts(extensions@) == setup::needed_extensions(),
    {
        let mut extensions: Vec<&'static str> = Vec::new();
        extensions.push("VK_EXT_image_drm_format_modifier");
        extensions.push("VK_EXT_external_memory_dma_buf");
        extensions.push("VK_EXT_queue_family_foreign");
        extensions.push("VK_KHR_external_memory_fd");
        assert(setup::texts(extensions@) =~= setup::needed_extensions());
        extensions
    }

    /// A renderer for a device that was set up, with the objects that were created for it.
    pub fn new(plan: &DevicePlan, formats: FormatTable, command_pool: u64, objects: FixedObjects) -> (renderer:
        Self)
        ensures
            renderer.queue_family == plan.queue_family,
            renderer.params_align == plan.params_align,
            renderer.formats == formats,
            renderer.command_pool == command_pool,
            renderer.objects == objects,
            forall|key| #[trigger] renderer.pipelines.pipeline(key) is None,
            renderer.descriptor_pools@.len() == 0,
            renderer.submissions.wf(),
            renderer.submissions@ == (SubmissionsModel {
                point: 0,
                in_flight: Map::empty(),
                order: Seq::empty(),
                free: Seq::empty(),
                timeline_waits: Seq::empty(),
                binary_waits: Seq::empty(),
            }),
            renderer.cleanup@ == Seq::<Deferred>::empty(),
            renderer.implicit_sync == (ImplicitSync {
                semaphores: plan.sync_fd_export || plan.sync_fd_import,
                interop: None,
            }),
            renderer.filters == (Filters {
                downscale: TextureFilter::Linear,
                upscale: TextureFilter::Linear,
            }),
            renderer.debug_flags == 0,
            renderer.default_color_params is None,
    {
        VulkanRenderer {
            queue_family: plan.queue_family,
            params_align: plan.params_align,
            formats,
            command_pool,
            objects,
            pipelines: PipelineCache::new(),
            descriptor_pools: DescriptorPools::new(),
            submissions: Submissions::new(),
            cleanup: CleanupQueue::new(),
            implicit_sync: ImplicitSync::new(plan.uses_sync_files()),
            filters: Filters { downscale: TextureFilter::Linear, upscale: TextureFilter::Linear },
            debug_flags: 0,
            default_color_params: None,
        }
    }

    /// Sets the default parameters applied to texture draws.
    ///
    /// Those of a single draw take precedence. `None` (the default) is a passthrough.
    pub fn set_default_color_params(&mut self, params: Option<ColorBlendParams>)
        ensures
            *final(self) == (VulkanRenderer { default_color_params: params, ..*old(self) }),
    {
        self.default_color_params = params;
    }

    /// The current default parameters.
    pub fn default_color_params(&self) -> (params: Option<ColorBlendParams>)
        ensures
            params == self.default_color_params,
    {
        self.default_color_params
    }

    /// The code of a custom fragment shader program, of what the compiler made of its source: a
    /// SPIR-V binary, or a message why there is none.
    pub fn compile_custom_pixel_shader(compiled: Result<Vec<u8>, String>) -> (r: Result<
        Vec<u32>,
        VulkanError,
    >)
        ensures
            match compiled {
                Ok(bytes) => match custom::spirv_words(bytes@) {
                    Some(words) => r matches Ok(code) && code@ == words,
                    None => r == Err::<Vec<u32>, VulkanError>(VulkanError::PipelineCreation),
                },
                Err(message) => r == Err::<Vec<u32>, VulkanError>(
                    VulkanError::ShaderCompile(message),
                ),
            },
    {
        match compiled {
            Ok(bytes) => shader_code(bytes.as_slice()),
            Err(message) => Err(VulkanError::ShaderCompile(message)),
        }
    }

    /// Sets the filter for scaling textures down.
    pub fn downscale_filter(&mut self, filter: TextureFilter)
        ensures
            *final(self) == (VulkanRenderer {
                filters: Filters { downscale: filter, ..old(self).filters },
                ..*old(self)
            }),
    {
        self.filters.downscale = filter;
    }

    /// Sets the filter for scaling textures up.
    pub fn upscale_filter(&mut self, filter: TextureFilter)
        ensures
            *final(self) == (VulkanRenderer {
                filters: Filters { upscale: filter, ..old(self).filters },
                ..*old(self)
            }),
    {
        self.filters.upscale = filter;
    }

    /// The filters for scaling textures.
    pub fn filters(&self) -> (filters: Filters)
        ensures
            filters == self.filters,
    {
        self.filters
    }

    /// Sets the debug flags.
    pub fn set_debug_flags(&mut self, flags: u32)
        ensures
            *final(self) == (VulkanRenderer { debug_flags: flags, ..*old(self) }),
    {
        self.debug_flags = flags;
    }

    /// The debug flags.
    pub fn debug_flags(&self) -> (flags: u32)
        ensures
            flags == self.debug_flags,
    {
        self.debug_flags
    }

    /// Whether textures are tinted for debugging.
    pub fn tints_textures(&self) -> (tints: bool)
        ensures
            tints == (self.debug_flags & DEBUG_TINT != 0),
    {
        self.debug_flags & DEBUG_TINT != 0
    }

    /// Recycles the command buffers of completed submissions, and collects the resources that
    /// are no longer used. The value of the timeline tells what has completed; a timeline that
    /// cannot be read counts as completed.
    pub fn process_completed(&mut self, counter: Option<u64>) -> (work: Cleanup)
        requires
            old(self).submissions.wf(),
        ensures
            ({
                let completed = match counter {
                    Some(value) => value,
                    None => u64::MAX,
                };
                &&& final(self).submissions.wf()
                &&& final(self).submissions@ == (SubmissionsModel {
                    in_flight: old(self).submissions@.in_flight.restrict(
                        Set::new(|p: u64| p > completed),
                    ),
                    order: queue::drained(old(self).submissions@.order, 0, completed).left,
                    free: old(self).submissions@.free + work.command_buffers@,
                    ..old(self).submissions@
                })
                &&& work.command_buffers@ == queue::drained(
                    old(self).submissions@.order,
                    0,
                    completed,
                ).recycled
                &&& forall|b: u64| #[trigger]
                    work.command_buffers@.contains(b) <==> exists|point: u64|
                        point <= completed && #[trigger] old(
                            self,
                        ).submissions@.in_flight.contains_key(point) && old(
                            self,
                        ).submissions@.in_flight[point].contains(b)
                &&& work.items@ == device::due(old(self).cleanup@, completed)
                &&& final(self).cleanup@ == device::not_due(old(self).cleanup@, completed)
                &&& *final(self) == (VulkanRenderer {
                    submissions: final(self).submissions,
                    cleanup: final(self).cleanup,
                    ..*old(self)
                })
            }),
    {
        let completed: u64 = completed_point(counter);
        let command_buffers = self.submissions.cleanup(completed);
        let items = self.cleanup.process_cleanup(completed);
        Cleanup { command_buffers, items }
    }
}

} // verus!
