//! What the queue, the device, imports and pipelines promise, in terms of what goes in and what
//! comes out.

use std::collections::HashSet;

use vstd::prelude::*;

use crate::backend::renderer::geometry::{Rectangle, Size};
use crate::backend::renderer::region;
use crate::backend::renderer::vulkan::color_params::{
    effective_params, params_block, ColorBlendParams,
};
use crate::backend::renderer::vulkan::commands::{Command, ImageLayout};
use crate::backend::renderer::vulkan::custom::{
    shader_code, std140_layout, texture_bindings_glsl, uniform_block_glsl, CustomUniform,
    CustomUniformDecl, CustomUniformValue, ProgramLayout, VulkanPixelProgram,
};
use crate::backend::renderer::vulkan::device::{
    completed_point, CleanupItem, CleanupQueue, MemoryTypes, MEMORY_DEVICE_LOCAL,
};
use crate::backend::renderer::vulkan::dmabuf_cache::DmabufCache;
use crate::backend::renderer::vulkan::error::{SwapFailure, VulkanError, ERROR_DEVICE_LOST};
use crate::backend::renderer::vulkan::fence::{BinarySemaphore, ExportAction, VulkanFence};
use crate::backend::renderer::vulkan::formats::{
    bytes_per_pixel, get_format_mapping, query_format_info, DrmFormat, FormatAnswer, FormatInfo,
    FormatMapping, FormatTable, Fourcc, VkFormat, MEM_TEXTURE_USAGE, OFFSCREEN_USAGE,
    USAGE_COLOR_ATTACHMENT,
};
use crate::backend::renderer::vulkan::frame::{FinishedFrame, FrameSubmit, SubmittedFrame};
use crate::backend::renderer::vulkan::import::{
    bind_texture, check_dmabuf, new_dmabuf_texture, new_render_buffer, new_texture, undo_image,
    view_of, DmabufImage, DmabufInfo, ViewRecipe,
};
use crate::backend::renderer::vulkan::pipelines::{
    DescriptorPools, FixedObjects, PipelineCache, PipelineKey, PipelineRecipe, PoolChoice,
    SampledImage,
};
use crate::backend::renderer::vulkan::queue::{
    FenceExport, ImplicitSync, QueueSignal, QueueSubmit, QueueWait, Submissions, SyncAccess,
    WaitAction, WaitEvent,
};
use crate::backend::renderer::vulkan::renderer::{Cleanup, VulkanRenderer};
use crate::backend::renderer::vulkan::setup::{plan_device, DevicePlan, DeviceReport};
use crate::backend::renderer::vulkan::texture::{
    Filters, PooledSet, RenderBuffer, VulkanTarget, VulkanTexture,
};
use crate::backend::renderer::vulkan::transfer::ImageRequest;
use crate::backend::renderer::vulkan::upload::{
    create_buffer, import_memory, import_shm_buffer, ShmBuffer, ShmPlan,
};
use crate::backend::renderer::vulkan::{
    color_params, custom, device, dmabuf_cache, draw, formats, frame, frame_blits, import,
    pipelines, queue, setup, texture, upload,
};

verus! {

/// A submission executes the command buffers that it is given, waits for everything that is pending
/// or asked for, and signals the next point of the timeline. Nothing is pending afterwards.
pub proof fn law_submit(
    queue: &mut Submissions,
    command_buffers: Vec<u64>,
    binary_waits: &Vec<u64>,
    timeline_waits: &Vec<u64>,
    export_semaphore: Option<u64>,
    submit: QueueSubmit,
    semaphore: u64,
    point: u64,
)
    requires
        call_ensures(
            Submissions::submit,
            (queue, command_buffers, binary_waits, timeline_waits, export_semaphore),
            submit,
        ),
        old(queue)@.point < u64::MAX,
    ensures
        submit@.point == old(queue)@.point + 1,
        submit@.command_buffers == command_buffers@,
        submit@.waits.contains(QueueWait::Semaphore(semaphore)) <==> old(
            queue
        )@.binary_waits.contains(semaphore) || binary_waits@.contains(semaphore),
        submit@.waits.contains(QueueWait::Point(point)) <==> old(queue)@.timeline_waits.contains(point)
            || timeline_waits@.contains(point),
        submit@.signals.contains(QueueSignal::Point(point)) <==> point == old(queue)@.point + 1,
        submit@.signals.contains(QueueSignal::Semaphore(semaphore)) <==> export_semaphore
            == Some(semaphore),
        final(queue)@.timeline_waits.len() == 0 && final(queue)@.binary_waits.len() == 0,
        final(queue)@.point == old(queue)@.point,
        final(queue)@.in_flight == old(queue)@.in_flight,
        final(queue)@.free == old(queue)@.free,
{
    queue::law_what_a_submission_waits_for(
        old(queue)@,
        command_buffers@,
        binary_waits@,
        timeline_waits@,
        export_semaphore,
        semaphore,
        point,
    );
}

/// What was submitted is in flight with its command buffers until its point, the semaphores that it
/// waited for are destroyed after that point, and its fence has that point.
pub proof fn law_submitted(
    queue: &mut Submissions,
    submit: QueueSubmit,
    items: &Vec<CleanupItem>,
    cleanup: &mut CleanupQueue,
    fence: VulkanFence,
    i: int,
)
    requires
        call_ensures(Submissions::submitted_one_shot, (queue, submit, items, cleanup), fence),
    ensures
        fence.point == submit@.point,
        fence.binary is Some <==> submit@.export_semaphore is Some,
        submit@.export_semaphore matches Some(semaphore) ==> fence.binary == Some(
            BinarySemaphore::Unexported(semaphore),
        ),
        final(queue)@.point == submit@.point,
        final(queue)@.in_flight.contains_key(submit@.point),
        final(queue)@.in_flight[submit@.point] == submit@.command_buffers,
        final(queue)@.free == old(queue)@.free,
        old(cleanup)@.is_prefix_of(final(cleanup)@),
        final(cleanup)@.len() == old(cleanup)@.len() + submit@.binary_waits.len() + items@.len(),
        0 <= i < items@.len() ==> {
            let d = final(cleanup)@[old(cleanup)@.len() + submit@.binary_waits.len() + i];
            d.point == submit@.point && d.item == items@[i]
        },
        0 <= i < submit@.binary_waits.len() ==> {
            let d = final(cleanup)@[old(cleanup)@.len() + i];
            d.point == submit@.point && d.item == CleanupItem::Semaphore(submit@.binary_waits[i])
        },
{
}

/// A submission that the queue refused leaves its semaphores to be destroyed: those that it would
/// have waited for, and the one that it would have signaled.
pub proof fn law_refused(submit: &QueueSubmit, items: Vec<CleanupItem>, s: u64)
    requires
        call_ensures(QueueSubmit::refused, (submit,), items),
    ensures
        items@.contains(CleanupItem::Semaphore(s)) <==> submit@.binary_waits.contains(s)
            || submit@.export_semaphore == Some(s),
        forall|i: int| 0 <= i < items@.len() ==> #[trigger] items@[i] is Semaphore,
{
    let all = match submit@.export_semaphore {
        Some(semaphore) => seq![semaphore] + submit@.binary_waits,
        None => submit@.binary_waits,
    };
    assert(items@ == queue::semaphore_items(all));
    if submit@.binary_waits.contains(s) {
        let i = choose|i: int| 0 <= i < submit@.binary_waits.len() && submit@.binary_waits[i] == s;
        let k = all.len() - submit@.binary_waits.len() + i;
        assert(items@[k] == CleanupItem::Semaphore(s));
    }
    if submit@.export_semaphore == Some(s) {
        assert(items@[0] == CleanupItem::Semaphore(s));
    }
    if items@.contains(CleanupItem::Semaphore(s)) {
        let k = choose|k: int| 0 <= k < items@.len() && items@[k] == CleanupItem::Semaphore(s);
        let n = all.len() - submit@.binary_waits.len();
        if k >= n {
            assert(submit@.binary_waits[k - n] == s);
        }
    }
}

/// Command buffers are handed out only when they are free, and come back only when what they were
/// submitted with is complete.
pub proof fn law_command_buffers(
    queue: &mut Submissions,
    completed: u64,
    recycled: Vec<u64>,
    taken_from: &mut Submissions,
    buffer: Option<u64>,
    b: u64,
)
    requires
        call_ensures(Submissions::cleanup, (queue, completed), recycled),
        call_ensures(Submissions::take_command_buffer, (taken_from,), buffer),
    ensures
        recycled@.contains(b) <==> exists|point: u64|
            point <= completed && #[trigger] old(queue)@.in_flight.contains_key(point) && old(
                queue
            )@.in_flight[point].contains(b),
        recycled@.contains(b) ==> !final(queue)@.executes(b),
        final(queue)@.free == old(queue)@.free + recycled@,
        forall|p: u64|
            p > completed ==> (#[trigger] final(queue)@.in_flight.contains_key(p) <==> old(
                queue
            )@.in_flight.contains_key(p)),
        forall|p: u64| p <= completed ==> !#[trigger] final(queue)@.in_flight.contains_key(p),
        buffer is None <==> old(taken_from)@.free.len() == 0,
        buffer matches Some(taken) ==> old(taken_from)@.free.contains(taken)
            && !final(taken_from)@.free.contains(taken) && !final(taken_from)@.executes(taken),
{
    if buffer is Some {
        let free = old(taken_from)@.free;
        assert(free[free.len() - 1] == buffer->0);
    }
}

/// A sync point is waited for on the device where that is possible, by its point or by a semaphore,
/// and blocked on otherwise. What is reached is not waited for.
pub proof fn law_handle_wait(queue: &mut Submissions, event: WaitEvent, action: WaitAction)
    requires
        call_ensures(Submissions::handle_wait, (queue, event), action),
    ensures
        match event {
            WaitEvent::Start { reached: true, .. } => action is Done && final(queue)@ == old(queue)@,
            WaitEvent::Start { reached: false, own_point: Some(point) } => {
                &&& action is Done
                &&& final(queue)@.timeline_waits == old(queue)@.timeline_waits.push(point)
                &&& final(queue)@.binary_waits == old(queue)@.binary_waits
            },
            WaitEvent::Start { reached: false, own_point: None } => action is Import && final(queue)@
                == old(queue)@,
            WaitEvent::Imported(Some(semaphore)) => {
                &&& action is Done
                &&& final(queue)@.binary_waits == old(queue)@.binary_waits.push(semaphore)
                &&& final(queue)@.timeline_waits == old(queue)@.timeline_waits
            },
            WaitEvent::Imported(None) => action is Block && final(queue)@ == old(queue)@,
            WaitEvent::Waited { interrupted: true } => action == WaitAction::Fail(
                VulkanError::SyncInterrupted,
            ) && final(queue)@ == old(queue)@,
            WaitEvent::Waited { interrupted: false } => action is Done && final(queue)@ == old(queue)@,
        },
{
    queue::law_a_wait_adds_its_own_point(old(queue)@, event);
}

/// The fences of a buffer are waited for before it is used, for the kind of access that is made, and
/// replaced afterwards, unless the kernel does not take part. It is asked once whether it does.
pub proof fn law_implicit_sync(
    sync: &ImplicitSync,
    write: bool,
    before: Option<SyncAccess>,
    after: Option<SyncAccess>,
    learning: &mut ImplicitSync,
    export: FenceExport,
    waits: &mut Vec<u64>,
    block: bool,
)
    requires
        call_ensures(ImplicitSync::acquire, (sync, write), before),
        call_ensures(ImplicitSync::release, (sync, write), after),
        call_ensures(ImplicitSync::acquired, (learning, export, waits), block),
    ensures
        before is None <==> sync.interop == Some(false) || !sync.semaphores,
        before matches Some(access) ==> access.read && access.write == write,
        after is None <==> sync.interop == Some(false),
        after matches Some(access) ==> access.read == !write && access.write == write,
        block <==> export is Failed,
        export is File ==> final(learning).interop == Some(true),
        export is Failed && old(learning).interop is None ==> final(learning).interop == Some(false),
        export is Failed && old(learning).interop is Some ==> final(learning).interop == old(
            learning
        ).interop,
        export matches FenceExport::File(Some(semaphore)) ==> final(waits)@ == old(waits)@.push(
            semaphore,
        ),
        !(export matches FenceExport::File(Some(_))) ==> final(waits)@ == old(waits)@,
{
}

/// Resources are destroyed when their point is reached, not before and not twice; a device that is
/// lost has reached every point.
pub proof fn law_cleanup(
    waiting: &mut CleanupQueue,
    point: u64,
    items: &Vec<CleanupItem>,
    later: &mut CleanupQueue,
    up_to: u64,
    destroyed: Vec<CleanupItem>,
    counter: Option<u64>,
    completed: u64,
    i: int,
)
    requires
        call_ensures(CleanupQueue::defer_destroy, (waiting, point, items), ()),
        call_ensures(CleanupQueue::process_cleanup, (later, up_to), destroyed),
        call_ensures(completed_point, (counter,), completed),
    ensures
        final(waiting)@.len() == old(waiting)@.len() + items@.len(),
        old(waiting)@.is_prefix_of(final(waiting)@),
        0 <= i < items@.len() ==> final(waiting)@[old(waiting)@.len() + i].point == point && final(
            waiting
        )@[old(waiting)@.len() + i].item == items@[i],
        0 <= i < final(later)@.len() ==> final(later)@[i].point > up_to,
        destroyed@.len() + final(later)@.len() == old(later)@.len(),
        0 <= i < destroyed@.len() ==> exists|k: int|
            0 <= k < old(later)@.len() && (#[trigger] old(later)@[k]).item == destroyed@[i] && old(
                later
            )@[k].point <= up_to,
        counter matches Some(value) ==> completed == value,
        counter is None ==> completed == u64::MAX,
{
    device::law_everything_is_destroyed_once(old(later)@, up_to);
    device::law_nothing_is_destroyed_early(old(later)@, up_to);
    if 0 <= i < destroyed@.len() {
        assert(device::due(old(later)@, up_to).contains(destroyed@[i]));
    }
    if 0 <= i < final(later)@.len() {
        assert(device::not_due(old(later)@, up_to).contains(final(later)@[i]));
    }
}

/// A fence is signaled when the timeline has reached its point. It is exported at most once, and
/// only if it has a semaphore and that can be exported.
pub proof fn law_fences(
    fence: &VulkanFence,
    counter: Option<u64>,
    signaled: bool,
    supported: bool,
    exportable: bool,
    action: ExportAction,
    left: (u64, Vec<CleanupItem>),
)
    requires
        call_ensures(VulkanFence::is_signaled, (fence, counter), signaled),
        call_ensures(VulkanFence::is_exportable, (fence, supported), exportable),
        call_ensures(VulkanFence::export, (fence, supported), action),
        call_ensures(VulkanFence::cleanup, (fence,), left),
    ensures
        counter is None ==> signaled,
        counter matches Some(value) ==> (signaled <==> fence.point <= value),
        exportable <==> fence.binary is Some && supported,
        !exportable ==> action is Refuse,
        exportable && fence.binary == Some(BinarySemaphore::Unexported(fence.binary->0.semaphore()))
            ==> action == ExportAction::Export(fence.binary->0.semaphore()),
        left.0 == fence.point,
        fence.binary is None ==> left.1@.len() == 0,
        fence.binary matches Some(binary) ==> left.1@ == seq![
            CleanupItem::Semaphore(binary.semaphore()),
        ],
{
}

/// What was made for a buffer is found for it, and for no other, as long as the buffer is alive.
pub proof fn law_cache<T>(
    cache: &mut DmabufCache<T>,
    dmabuf: u64,
    made: T,
    kept: &mut DmabufCache<T>,
    alive: &HashSet<u64>,
    other: u64,
)
    requires
        call_ensures(DmabufCache::<T>::insert, (cache, dmabuf, made), ()),
        call_ensures(DmabufCache::<T>::retain, (kept, alive), ()),
    ensures
        dmabuf_cache::kept_for(old(cache)@, dmabuf) is None ==> dmabuf_cache::kept_for(
            final(cache)@,
            dmabuf,
        ) == Some(made),
        other != dmabuf ==> dmabuf_cache::kept_for(final(cache)@, other) == dmabuf_cache::kept_for(
            old(cache)@,
            other,
        ),
        alive@.contains(other) ==> dmabuf_cache::kept_for(final(kept)@, other)
            == dmabuf_cache::kept_for(old(kept)@, other),
        !alive@.contains(other) ==> dmabuf_cache::kept_for(final(kept)@, other) is None,
{
    dmabuf_cache::law_kept_while_alive(old(kept)@, alive@, other);
    dmabuf_cache::lemma_pushed_entry(old(cache)@, dmabuf, made, dmabuf);
    dmabuf_cache::lemma_pushed_entry(old(cache)@, dmabuf, made, other);
}

/// A dmabuf is accepted exactly if its format and its modifier are supported for the use that is to
/// be made of it, it is not too large, and it has as many planes as the modifier. The image then
/// has the planes where the dmabuf has them.
pub proof fn law_check_dmabuf(
    table: &FormatTable,
    dmabuf: &DmabufInfo,
    usage: u32,
    r: Result<DmabufImage, VulkanError>,
    k: int,
)
    requires
        call_ensures(check_dmabuf, (table, dmabuf, usage), r),
        dmabuf.size.w >= 0,
        dmabuf.size.h >= 0,
    ensures
        match formats::info_for(table@, dmabuf.format) {
            None => r == Err::<DmabufImage, VulkanError>(
                VulkanError::UnsupportedFormat(dmabuf.format),
            ),
            Some(info) => {
                let modifiers = if usage & USAGE_COLOR_ATTACHMENT == USAGE_COLOR_ATTACHMENT {
                    info.render_modifiers
                } else {
                    info.texture_modifiers
                };
                match import::modifier_for(modifiers, dmabuf.modifier) {
                    None => r == Err::<DmabufImage, VulkanError>(
                        VulkanError::UnsupportedModifier(dmabuf.format),
                    ),
                    Some(modifier) => {
                        let fits = dmabuf.size.w <= modifier.max_extent.width && dmabuf.size.h
                            <= modifier.max_extent.height;
                        &&& r is Ok <==> fits && dmabuf.planes@.len() == modifier.plane_count
                        &&& r matches Err(e) ==> (e matches VulkanError::DmabufImport(text) && text@ == (
                        if fits {
                            "unexpected plane count"@
                        } else {
                            "dmabuf too large"@
                        }))
                        &&& r matches Ok(image) ==> {
                            &&& image.mapping == info.mapping
                            &&& image.modifier == dmabuf.modifier
                            &&& image.size == dmabuf.size
                            &&& image.usage == usage
                            &&& image.plane_layouts@.len() == dmabuf.planes@.len()
                            &&& 0 <= k < dmabuf.planes@.len() ==> image.plane_layouts@[k].offset
                                == dmabuf.planes@[k].offset && image.plane_layouts@[k].row_pitch
                                == dmabuf.planes@[k].stride
                        }
                    },
                }
            },
        },
{
    if let Some(info) = formats::info_for(table@, dmabuf.format) {
        let modifiers = if usage & USAGE_COLOR_ATTACHMENT == USAGE_COLOR_ATTACHMENT {
            info.render_modifiers
        } else {
            info.texture_modifiers
        };
        if let Some(modifier) = import::modifier_for(modifiers, dmabuf.modifier) {
            import::law_too_large_images(dmabuf.size, modifier.max_extent);
        }
    }
}

/// A texture and a render buffer are made of what they are given. An imported texture belongs to
/// someone else and cannot be written or rendered to; a view of a sampled format without alpha is
/// opaque.
pub proof fn law_made_of(
    image: u64,
    view: u64,
    memory: u64,
    mapping: FormatMapping,
    size: Size,
    y_inverted: bool,
    writable: bool,
    own: VulkanTexture,
    dmabuf: &DmabufInfo,
    imported: VulkanTexture,
    buffer: RenderBuffer,
    sampled: bool,
    recipe: ViewRecipe,
)
    requires
        call_ensures(
            new_texture,
            (image, view, memory, mapping, size, y_inverted, writable),
            own,
        ),
        call_ensures(new_dmabuf_texture, (image, view, memory, mapping, dmabuf), imported),
        call_ensures(new_render_buffer, (image, view, memory, mapping, dmabuf), buffer),
        call_ensures(view_of, (image, mapping, sampled), recipe),
    ensures
        own.image == image && own.view == view && own.memories@ == seq![memory],
        own.size == size && own.y_inverted == y_inverted && own.writable == writable,
        own.format == mapping.fourcc && own.has_alpha == mapping.has_alpha,
        !own.dmabuf_imported && own.layout == ImageLayout::Undefined && own.last_use == 0,
        imported.image == image && imported.size == dmabuf.size,
        imported.y_inverted == dmabuf.y_inverted && imported.has_alpha == mapping.has_alpha,
        imported.dmabuf_imported && !imported.writable,
        imported.layout == ImageLayout::General && imported.last_use == 0,
        buffer.image == image && buffer.view == view && buffer.memories@ == seq![memory],
        buffer.size == dmabuf.size && !buffer.transitioned && buffer.last_use == 0,
        recipe.image == image && recipe.format == mapping.vk,
        recipe.opaque <==> sampled && !mapping.has_alpha,
{
}

/// A texture can be rendered to exactly if it was not imported. What a failed image leaves behind is
/// destroyed: each memory, and the image.
pub proof fn law_bind_and_undo(
    texture: &VulkanTexture,
    r: Result<(), VulkanError>,
    image: u64,
    memories: &Vec<u64>,
    items: Vec<CleanupItem>,
    i: int,
)
    requires
        call_ensures(bind_texture, (texture,), r),
        call_ensures(undo_image, (image, memories), items),
    ensures
        r is Ok <==> !texture.dmabuf_imported,
        r matches Err(e) ==> e is DmabufImport,
        items@.len() == memories@.len() + 1,
        0 <= i < memories@.len() ==> items@[i] == CleanupItem::Memory(memories@[i]),
        items@.last() == CleanupItem::Image(image),
{
}

/// A pipeline is made for the shaders and the format that it is used with; it blends exactly if it
/// is asked to.
pub proof fn law_pipeline_recipes(
    objects: &FixedObjects,
    format: VkFormat,
    solid: bool,
    blend: bool,
    recipe: PipelineRecipe,
    program: &VulkanPixelProgram,
    custom: PipelineRecipe,
)
    requires
        call_ensures(FixedObjects::pipeline, (objects, format, solid, blend), recipe),
        call_ensures(FixedObjects::custom_pipeline, (objects, program, format, blend), custom),
    ensures
        recipe.vertex == objects.vertex_module && custom.vertex == objects.vertex_module,
        solid ==> recipe.fragment == objects.solid_module,
        !solid ==> recipe.fragment == objects.texture_module,
        custom.fragment == program.module,
        recipe.format == format && custom.format == format,
        recipe.blend == blend && custom.blend == blend,
        recipe.layout == objects.pipeline_layouts@[1],
        custom.layout == objects.pipeline_layouts@[program.layout.textures().len() as int],
{
}

/// A pipeline that was made for a key is found for that key, and for no other; one that could not
/// be made is not found.
pub proof fn law_pipeline_cache(
    cache: &mut PipelineCache,
    key: PipelineKey,
    pipeline: Option<u64>,
    r: Result<u64, VulkanError>,
    other: PipelineKey,
)
    requires
        call_ensures(PipelineCache::created, (cache, key, pipeline), r),
    ensures
        pipeline matches Some(made) ==> r == Ok::<u64, VulkanError>(made) && final(cache).pipeline(key)
            == Some(made),
        pipeline is None ==> r == Err::<u64, VulkanError>(VulkanError::PipelineCreation),
        other != key || pipeline is None ==> final(cache).pipeline(other) == old(cache).pipeline(other),
{
}

/// A descriptor set samples the view of its texture through the sampler of its filters; those of a
/// custom shader sample its images in order.
pub proof fn law_descriptor_sets(
    objects: &FixedObjects,
    image: &VulkanTexture,
    filters: Filters,
    set: (u64, SampledImage),
    views: &Vec<u64>,
    edge_clamp: bool,
    sets: (u64, Vec<SampledImage>),
    i: int,
)
    requires
        call_ensures(FixedObjects::texture_set, (objects, image, filters), set),
        call_ensures(FixedObjects::custom_texture_set, (objects, views, edge_clamp), sets),
        0 <= i < views@.len() <= u32::MAX,
    ensures
        set.0 == objects.texture_layouts@[1],
        set.1.binding == 0 && set.1.view == image.view,
        set.1.sampler == objects.samplers@[texture::filter_index(filters)],
        set.1.layout == ImageLayout::ShaderReadOnlyOptimal,
        sets.0 == objects.texture_layouts@[views@.len() as int],
        sets.1@.len() == views@.len(),
        sets.1@[i].binding == i && sets.1@[i].view == views@[i],
        edge_clamp ==> sets.1@[i].sampler == objects.samplers@[0],
        !edge_clamp ==> sets.1@[i].sampler == objects.custom_sampler,
{
    pipelines::law_images_are_bound_in_order(
        views@,
        if edge_clamp {
            objects.samplers@[0]
        } else {
            objects.custom_sampler
        },
        i,
    );
}

/// A set comes from a pool that has one to give, which then has one less; a new pool has given one.
pub proof fn law_descriptor_pools(
    pools: &DescriptorPools,
    from: usize,
    choice: PoolChoice,
    giving: &mut DescriptorPools,
    place: usize,
    set: u64,
    pooled: PooledSet,
    k: int,
)
    requires
        call_ensures(DescriptorPools::choose_pool, (pools, from), choice),
        call_ensures(DescriptorPools::allocated, (giving, place, set), pooled),
        place < old(giving)@.len(),
        old(giving)@[place as int].free > 0,
        from <= pools@.len() <= usize::MAX,
        0 <= k < old(giving)@.len(),
    ensures
        choice matches PoolChoice::Existing { place: p, pool } ==> from <= p < pools@.len()
            && pools@[p as int].free > 0 && pool == pools@[p as int].pool,
        choice is Fresh ==> forall|i: int| from <= i < pools@.len() ==> (#[trigger] pools@[i]).free == 0,
        pooled.pool == old(giving)@[place as int].pool && pooled.set == set,
        final(giving)@.len() == old(giving)@.len(),
        final(giving)@[place as int].free == old(giving)@[place as int].free - 1,
        k != place ==> final(giving)@[k] == old(giving)@[k],
{
    pipelines::law_next_pool_has_room(pools@, from as int);
}

/// A descriptor set that was kept for some filters is found for those filters, and for no others.
pub proof fn law_kept_descriptor_sets(
    texture: &mut VulkanTexture,
    filters: Filters,
    set: PooledSet,
    after: VulkanTexture,
    asked: Filters,
    found: Option<PooledSet>,
)
    requires
        call_ensures(VulkanTexture::cache_descriptor_set, (texture, filters, set), ()),
        after == *final(texture),
        call_ensures(VulkanTexture::descriptor_set, (&after, asked), found),
    ensures
        asked.downscale == filters.downscale && asked.upscale == filters.upscale ==> found == Some(set),
        !(asked.downscale == filters.downscale && asked.upscale == filters.upscale) ==> found == old(
            texture
        ).descriptor_sets@[texture::filter_index(asked)],
        after.image == old(texture).image,
{
    texture::law_filters_have_their_own_place(filters, asked);
    texture::law_filters_have_their_own_place(asked, filters);
}

/// A device is used exactly if it is recent enough, has what is needed, and can do graphics. What is
/// missing is reported.
pub proof fn law_plan_device(report: &DeviceReport, r: Result<DevicePlan, VulkanError>)
    requires
        call_ensures(plan_device, (report,), r),
    ensures
        ({
            let v = report.api_version;
            let old_version = v.variant == 0 && (v.major == 0 || (v.major == 1 && v.minor < 3));
            let available = setup::names(report.extensions@);
            let missing = exists|i: int|
                0 <= i < setup::needed_extensions().len() && !available.contains(
                    #[trigger] setup::needed_extensions()[i],
                );
            let graphics = exists|i: int|
                0 <= i < report.queue_families@.len() && (#[trigger] report.queue_families@[i])
                    & setup::QUEUE_GRAPHICS == setup::QUEUE_GRAPHICS;
            &&& old_version ==> r == Err::<DevicePlan, VulkanError>(
                VulkanError::UnsupportedVersion(1, 3),
            )
            &&& !old_version && missing ==> (r matches Err(VulkanError::MissingExtension(name))
                && !available.contains(name@))
            &&& !old_version && !missing && !graphics ==> r == Err::<DevicePlan, VulkanError>(
                VulkanError::NoGraphicsQueue,
            )
            &&& !old_version && !missing && graphics ==> r is Ok
            &&& r matches Ok(plan) ==> {
                &&& plan.queue_family < report.queue_families@.len()
                &&& report.queue_families@[plan.queue_family as int] & setup::QUEUE_GRAPHICS
                    == setup::QUEUE_GRAPHICS
                &&& plan.sync_fd_export ==> available.contains(setup::semaphore_extension())
                &&& plan.sync_fd_import ==> available.contains(setup::semaphore_extension())
                &&& setup::needed_extensions().is_prefix_of(setup::texts(plan.extensions@))
                &&& 4 <= report.uniform_alignment <= u32::MAX ==> plan.params_align
                    == report.uniform_alignment
                &&& report.uniform_alignment < 4 ==> plan.params_align == 4
            }
        }),
{
    let available = setup::names(report.extensions@);
    setup::law_sufficient_versions(report.api_version, report.api_version);
    setup::law_missing_extensions(setup::needed_extensions(), available);
    setup::law_first_graphics_family(report.queue_families@, 0);
}

/// Uniforms are laid out as tightly as their alignment allows, and none overlaps another.
pub proof fn law_std140_layout(decls: &Vec<CustomUniformDecl>, r: (Vec<u32>, u32), i: int)
    requires
        call_ensures(std140_layout, (decls,), r),
        0 <= i < decls@.len(),
    ensures
        r.0@.len() == decls@.len(),
        r.0@[i] as int % decls@[i].kind.alignment() == 0,
        r.0@[i] + decls@[i].kind.extent() <= r.1,
        i == 0 ==> r.0@[i] == 0,
        i > 0 ==> ({
            let end = r.0@[i - 1] + decls@[i - 1].kind.extent();
            end <= r.0@[i] < end + decls@[i].kind.alignment()
        }),
        r.1 % 16 == 0,
        i == decls@.len() - 1 ==> r.1 < r.0@[i] + decls@[i].kind.extent() + 16,
{
    let models = custom::models(decls@);
    custom::law_uniforms_do_not_overlap(models, i, models.len() as int);
    custom::law_uniforms_are_packed_tightly(models, i);
    assert(models[i].kind == decls@[i].kind);
    if i > 0 {
        assert(models[i - 1].kind == decls@[i - 1].kind);
    }
}

/// A value is written with its components at their places, lowest byte first, and nothing else is
/// touched.
pub proof fn law_write_std140(
    value: &CustomUniformValue,
    out: &mut Vec<u8>,
    offset: u32,
)
    requires
        call_ensures(CustomUniformValue::write_std140, (value, out, offset), ()),
    ensures
        final(out)@ == custom::with_words(old(out)@, value.words(), offset as int),
        value matches CustomUniformValue::Float(v) ==> final(out)@ == custom::with_word(
            old(out)@,
            offset as int,
            *v,
        ),
{
    if let CustomUniformValue::Float(v) = *value {
        let words = value.words();
        assert(words.drop_last() =~= Seq::<(int, u32)>::empty());
        assert(words.last() == (0int, v));
        assert(custom::with_words(old(out)@, words.drop_last(), offset as int) == old(out)@);
    }
}

/// The code of a shader is its bytes, four to a word; what is not the code of a shader is refused.
pub proof fn law_shader_code(bytes: &[u8], r: Result<Vec<u32>, VulkanError>, i: int)
    requires
        call_ensures(shader_code, (bytes,), r),
    ensures
        r matches Ok(code) ==> {
            &&& 4 * code@.len() == bytes@.len() && code@.len() > 0
            &&& code@[0] == 0x0723_0203
            &&& 0 <= i < code@.len() && bytes@[0] == 0x03 ==> code@[i] == bytes@[4 * i] + 0x100
                * bytes@[4 * i + 1] + 0x1_0000 * bytes@[4 * i + 2] + 0x100_0000 * bytes@[4 * i + 3]
        },
        r matches Err(e) ==> e == VulkanError::PipelineCreation,
        bytes@.len() > 0 && bytes@.len() % 4 == 0 && bytes@[0] == 0x03 && bytes@[1] == 0x02 && bytes@[2]
            == 0x23 && bytes@[3] == 0x07 ==> r is Ok,
        bytes@.len() % 4 != 0 ==> r is Err,
{
    custom::law_shader_code_is_its_bytes(bytes@, i);
    if bytes@.len() > 0 && bytes@.len() % 4 == 0 && bytes@[0] == 0x03 && bytes@[1] == 0x02
        && bytes@[2] == 0x23 && bytes@[3] == 0x07 {
        assert(custom::word_at(bytes@, 0) == 0x0723_0203);
    }
}

/// A program is accepted exactly if it has no more textures and no larger parameters than are
/// allowed. Its parameters are serialized by their names, and what is not given is zero.
pub proof fn law_programs(
    uniforms: Vec<CustomUniformDecl>,
    names: Vec<String>,
    r: Result<ProgramLayout, VulkanError>,
    layout: &ProgramLayout,
    values: &[CustomUniform<'_>],
    out: Vec<u8>,
    i: int,
)
    requires
        call_ensures(ProgramLayout::new, (uniforms, names), r),
        call_ensures(ProgramLayout::serialize_uniforms, (layout, values), out),
        custom::kinds_match(layout.decls(), values@),
        0 <= i < layout.decls().len(),
    ensures
        r is Ok <==> names@.len() <= custom::MAX_CUSTOM_TEXTURES && custom::block_size(
            custom::models(uniforms@),
        ) <= custom::MAX_CUSTOM_PARAMS_SIZE,
        r matches Ok(made) ==> made.decls() == custom::models(uniforms@) && made.textures().len()
            == names@.len(),
        ({
            let at = custom::offset_of(layout.decls(), i);
            match custom::value_for(values@, layout.decls()[i].name) {
                Some(value) => forall|k: int|
                    0 <= k < value.words().len() ==> #[trigger] custom::word_at(
                        out@,
                        at + value.words()[k].0,
                    ) == value.words()[k].1,
                None => forall|b: int|
                    at <= b < at + layout.decls()[i].kind.extent() ==> #[trigger] out@[b] == 0u8,
            }
        }),
{
    custom::law_uniforms_are_read_back(layout.decls(), values@, i);
}

/// An import from memory is accepted exactly if the format is one for memory that the device can
/// sample, and the image fits the device and the data. The image can then be sampled and written.
pub proof fn law_import_memory(
    table: &FormatTable,
    data: &[u8],
    format: Fourcc,
    size: Size,
    little_endian: bool,
    r: Result<ImageRequest, VulkanError>,
    created: Result<ImageRequest, VulkanError>,
)
    requires
        call_ensures(import_memory, (table, data, format, size, little_endian), r),
        call_ensures(create_buffer, (table, format, size, little_endian), created),
    ensures
        ({
            let known = formats::is_mem_format(format) && (formats::info_for(
                table@,
                format,
            ) matches Some(info) && info.optimal_max_extent is Some);
            let extent = formats::info_for(table@, format)->0.optimal_max_extent->0;
            let fits = 0 < size.w <= extent.width && 0 < size.h <= extent.height && size.w * size.h * 4
                <= data@.len();
            &&& r is Ok <==> known && fits
            &&& !known ==> r == Err::<ImageRequest, VulkanError>(VulkanError::UnsupportedFormat(format))
            &&& known && !fits ==> r == Err::<ImageRequest, VulkanError>(VulkanError::UnexpectedSize)
            &&& r matches Ok(request) ==> request.size == size && request.usage == MEM_TEXTURE_USAGE
                && request.mapping.fourcc == format
        }),
        ({
            let known = formats::mapping_of(format, little_endian) is Some && (formats::info_for(
                table@,
                format,
            ) matches Some(info) && info.optimal_render);
            &&& created is Ok <==> known && size.w > 0 && size.h > 0
            &&& !known ==> created == Err::<ImageRequest, VulkanError>(
                VulkanError::UnsupportedFormat(format),
            )
            &&& created matches Ok(request) ==> request.size == size && request.usage == OFFSCREEN_USAGE
                && request.mapping.fourcc == format
        }),
{
    upload::law_when_an_import_is_refused(table@, data@.len() as int, format, size);
    upload::law_when_a_buffer_is_refused(table@, format, size, little_endian);
    formats::law_mappings(format, little_endian);
}

/// A shared-memory buffer of the same size as before is uploaded where it is damaged, and as a whole
/// if nothing is said of damage; one of another size is uploaded to a new texture.
pub proof fn law_import_shm_buffer(
    buffer: &ShmBuffer,
    existing: Option<Size>,
    damage: &[Rectangle],
    little_endian: bool,
    r: Result<ShmPlan, VulkanError>,
    x: int,
    y: int,
)
    requires
        call_ensures(import_shm_buffer, (buffer, existing, damage, little_endian), r),
    ensures
        ({
            let known = buffer.format matches Some(format) && formats::is_mem_format(format);
            let size = Size { w: buffer.width, h: buffer.height };
            let inside = 0 <= x < buffer.width && 0 <= y < buffer.height;
            &&& r is Ok <==> known && buffer.stride % 4 == 0
            &&& !known ==> r == Err::<ShmPlan, VulkanError>(
                VulkanError::UnsupportedWlPixelFormat(buffer.wire_format),
            )
            &&& known && buffer.stride % 4 != 0 ==> r == Err::<ShmPlan, VulkanError>(
                VulkanError::UnexpectedSize,
            )
            &&& r matches Ok(plan) ==> (plan is Update <==> existing == Some(size))
            &&& r matches Ok(ShmPlan::Create(request)) ==> request.size == size && request.usage
                == MEM_TEXTURE_USAGE
            &&& r matches Ok(ShmPlan::Update(regions)) ==> {
                &&& damage@.len() == 0 ==> regions@.len() == 1 && regions@[0].loc.x == 0
                    && regions@[0].loc.y == 0 && regions@[0].size == size
                &&& damage@.len() > 0 ==> region::cover(regions@, x, y) == (if inside {
                    region::cover(damage@, x, y)
                } else {
                    0
                })
            }
        }),
{
    upload::law_when_a_shm_buffer_is_refused(*buffer);
    if let Ok(ShmPlan::Update(regions)) = r {
        if damage@.len() > 0 {
            upload::law_clipped_damage_is_the_damage_inside(
                damage@,
                regions@,
                buffer.full(),
                x,
                y,
            );
        }
    }
}

/// What a draw has of its own is in effect before what is set for all; the block of parameters holds
/// them at their places, or zeros.
pub proof fn law_params(
    own: Option<ColorBlendParams>,
    default: Option<ColorBlendParams>,
    params: Option<ColorBlendParams>,
    block: [u32; 24],
    column: int,
    row: int,
)
    requires
        call_ensures(effective_params, (own, default), params),
        call_ensures(params_block, (params,), block),
        0 <= column < 3,
        0 <= row < 3,
    ensures
        params == (if own is Some {
            own
        } else {
            default
        }),
        params is None ==> block@[4 * column + row] == 0,
        params matches Some(p) ==> block@[0] == p.hdr_pq && block@[2] == p.linear && block@[8]
            == p.tonemap && block@[12 + 4 * column + row] == p.gamut@[3 * column + row] && block@[12 + 4
            * column + 3] == 0,
{
    if let Some(p) = params {
        color_params::law_params_have_their_places(p, column, row);
    }
}

/// A frame is submitted once it has been acquired: its command buffers after those that take over
/// its images. Its images are then used until its point.
pub proof fn law_frame_submission(
    end: FinishedFrame,
    submissions: &mut Submissions,
    acquire_buffer: u64,
    frame_buffer: u64,
    export_semaphore: Option<u64>,
    submit: FrameSubmit,
    done: &SubmittedFrame,
    image: &mut VulkanTarget,
    fence: VulkanFence,
)
    requires
        call_ensures(
            FinishedFrame::submit,
            (end, submissions, acquire_buffer, frame_buffer, export_semaphore),
            submit,
        ),
        call_ensures(SubmittedFrame::mark_used, (done, image), ()),
        call_ensures(SubmittedFrame::fence, (done,), fence),
        old(submissions)@.point < u64::MAX,
    ensures
        submit@.submit.command_buffers == seq![acquire_buffer, frame_buffer],
        submit@.submit.point == old(submissions)@.point + 1,
        submit@.used == end@.used,
        done@.used.contains(old(image).target_image()) ==> final(image).used_until() >= fence.point,
        !done@.used.contains(old(image).target_image()) ==> *final(image) == *old(image),
        final(image).target_image() == old(image).target_image(),
{
    frame_blits::law_use_moves_forward(*old(image), done@.fence.point);
}

/// When the timeline has reached a point, exactly the command buffers of completed submissions come
/// back, and exactly the resources whose point has been reached are destroyed.
pub proof fn law_process_completed(
    renderer: &mut VulkanRenderer,
    counter: Option<u64>,
    work: Cleanup,
    b: u64,
    i: int,
)
    requires
        call_ensures(VulkanRenderer::process_completed, (renderer, counter), work),
    ensures
        ({
            let completed = if counter is Some {
                counter->0
            } else {
                u64::MAX
            };
            &&& work.command_buffers@.contains(b) <==> exists|point: u64|
                point <= completed && #[trigger] old(renderer).submissions@.in_flight.contains_key(
                    point,
                ) && old(renderer).submissions@.in_flight[point].contains(b)
            &&& work.items@.len() + final(renderer).cleanup@.len() == old(renderer).cleanup@.len()
            &&& 0 <= i < final(renderer).cleanup@.len() ==> final(renderer).cleanup@[i].point > completed
            &&& 0 <= i < work.items@.len() ==> exists|k: int|
                0 <= k < old(renderer).cleanup@.len() && (#[trigger] old(renderer).cleanup@[k]).item
                    == work.items@[i] && old(renderer).cleanup@[k].point <= completed
            &&& final(renderer).filters == old(renderer).filters
            &&& final(renderer).pipelines == old(renderer).pipelines
        }),
{
    let completed = if counter is Some {
        counter->0
    } else {
        u64::MAX
    };
    let waiting = old(renderer).cleanup@;
    device::law_everything_is_destroyed_once(waiting, completed);
    device::law_nothing_is_destroyed_early(waiting, completed);
    if 0 <= i < work.items@.len() {
        assert(device::due(waiting, completed).contains(work.items@[i]));
    }
    if 0 <= i < final(renderer).cleanup@.len() {
        assert(device::not_due(waiting, completed).contains(final(renderer).cleanup@[i]));
    }
}

/// A lost device, and a device that could not be set up, lose the context; anything else is the
/// failure of one operation.
pub proof fn law_failures(error: &VulkanError, failure: SwapFailure)
    requires
        call_ensures(VulkanError::swap_failure, (error,), failure),
    ensures
        *error == VulkanError::Vk(ERROR_DEVICE_LOST) ==> failure is ContextLost,
        error is UnsupportedVersion || error is MissingExtension || error is NoGraphicsQueue || error
            is PipelineCreation ==> failure is ContextLost,
        error is OutOfBounds || error is UnsupportedFormat || error is DmabufImport || error
            is NotWritable || error is BlitSameImage || error is NoMemoryType ==> failure
            is TemporaryFailure,
{
}

} // verus!
