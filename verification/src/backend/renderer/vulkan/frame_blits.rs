//! What frames do besides drawing: blits in the middle of rendering, the images that they take
//! over and give back, and what they remember.

use vstd::prelude::*;

use crate::backend::renderer::geometry::{Rectangle, Size};
use crate::backend::renderer::vulkan::commands::{
    Command, ImageLayout, TextureFilter, ACCESS_COLOR_ATTACHMENT, ACCESS_COLOR_ATTACHMENT_WRITE,
    ACCESS_MEMORY, ACCESS_SHADER_READ, ACCESS_TRANSFER, ACCESS_TRANSFER_READ,
    ACCESS_TRANSFER_WRITE, QUEUE_FAMILY_FOREIGN, STAGE_ALL_COMMANDS, STAGE_COLOR_ATTACHMENT_OUTPUT,
    STAGE_FRAGMENT_SHADER, STAGE_TRANSFER,
};
use crate::backend::renderer::vulkan::fence::BinarySemaphore;
use crate::backend::renderer::vulkan::frame;
use crate::backend::renderer::vulkan::frame::{FrameModel, FrameSubmitModel, SubmittedModel};
use crate::backend::renderer::vulkan::texture::{RenderBuffer, VulkanTarget, VulkanTexture};

verus! {

/// A blit within a frame interrupts rendering, copies the one region into the other, once and in
/// the right direction, with the filter that was asked for, and resumes rendering to the same
/// target and the same area. It concerns no image but the target and the other one.
pub proof fn law_frame_blit_copies_the_region(
    target: VulkanTarget,
    other: VulkanTarget,
    src: Rectangle,
    dst: Rectangle,
    filter: TextureFilter,
    to_other: bool,
    size: Size,
    queue_family: u32,
)
    requires
        src.is_bounded(),
        dst.is_bounded(),
    ensures
        ({
            let list = frame::frame_blit_commands(
                target,
                other,
                src,
                dst,
                filter,
                to_other,
                size,
                queue_family,
            );
            let n = list.len();
            &&& n >= 7
            &&& list[0] is EndRendering
            &&& list[3] matches Command::Blit {
                src_image,
                src_from,
                src_to,
                dst_image,
                dst_from,
                dst_to,
                filter: f,
                ..
            } && {
                &&& to_other ==> src_image == target.target_image() && dst_image
                    == other.target_image()
                &&& !to_other ==> src_image == other.target_image() && dst_image
                    == target.target_image()
                &&& src_from == src.loc && dst_from == dst.loc
                &&& src_to.x == src.loc.x + src.size.w && src_to.y == src.loc.y + src.size.h
                &&& dst_to.x == dst.loc.x + dst.size.w && dst_to.y == dst.loc.y + dst.size.h
                &&& f == filter
            }
            &&& list[n - 2] matches Command::BeginRendering { image, size: s, .. } && image
                == target.target_image() && s == size
            &&& list[n - 1] == Command::SetArea(size)
            &&& forall|i: int|
                0 <= i < n && i != 0 && i != 3 && i != n - 2 && i != n - 1 ==> (
                #[trigger] list[i] matches Command::Barrier(barrier) && (barrier.image
                    == target.target_image() || barrier.image == other.target_image()))
        }),
{
}

/// A blit within a frame waits for what was rendered, and what is rendered next waits for it.
pub proof fn law_frame_blits_are_ordered(target: VulkanTarget, write: bool)
    ensures
        ({
            let before = frame::bound_prepare_barrier(target, write);
            let after = frame::bound_restore_barrier(target, write);
            &&& before.image == target.target_image() && after.image == target.target_image()
            &&& before.src_stage == STAGE_COLOR_ATTACHMENT_OUTPUT
            &&& before.src_access == ACCESS_COLOR_ATTACHMENT
            &&& before.dst_stage == STAGE_TRANSFER
            &&& target is Texture ==> before.dst_access == if write {
                ACCESS_TRANSFER_WRITE
            } else {
                ACCESS_TRANSFER_READ
            }
            &&& target is Dmabuf ==> before.dst_access == ACCESS_TRANSFER
            &&& after.src_stage == STAGE_TRANSFER && after.src_access == ACCESS_TRANSFER
            &&& after.dst_stage == STAGE_COLOR_ATTACHMENT_OUTPUT
            &&& after.dst_access == ACCESS_COLOR_ATTACHMENT
            &&& after.old_layout == before.new_layout && after.new_layout == before.old_layout
        }),
{
}

/// A frame begins with the target and the size that it was made for.
pub proof fn law_rendering_begins_on_the_target(target: VulkanTarget, size: Size)
    ensures
        frame::begin_command(target, size) matches Command::BeginRendering {
            image,
            layout,
            size: s,
        } && image == target.target_image() && s == size && layout == (match target {
            VulkanTarget::Dmabuf(_) => ImageLayout::General,
            VulkanTarget::Texture(_) => ImageLayout::ColorAttachmentOptimal,
        }),
{
}

/// Every imported texture is taken over before the frame and given back after it, and the target
/// with them: one barrier for each image, in order. What the frame reads, the fragment shader
/// waits for; what it renders to, the color output waits for.
pub proof fn law_images_are_taken_over_and_given_back(
    images: Seq<u64>,
    target: VulkanTarget,
    initial_layout: ImageLayout,
    queue_family: u32,
    i: int,
)
    requires
        0 <= i < images.len(),
    ensures
        ({
            let taken = frame::acquire_commands(images, target, initial_layout, queue_family);
            let given = frame::release_commands(images, target, queue_family);
            let n = images.len();
            &&& taken.len() == n + 1
            &&& given.len() == n + 2
            &&& taken[i] matches Command::Barrier(barrier) && {
                &&& barrier.image == images[i]
                &&& barrier.src_family == QUEUE_FAMILY_FOREIGN && barrier.dst_family == queue_family
                &&& barrier.dst_stage == STAGE_FRAGMENT_SHADER
                &&& barrier.dst_access == ACCESS_SHADER_READ
            }
            &&& taken[n as int] matches Command::Barrier(barrier) && {
                &&& barrier.image == target.target_image()
                &&& barrier.dst_stage == STAGE_COLOR_ATTACHMENT_OUTPUT
                &&& barrier.dst_access == ACCESS_COLOR_ATTACHMENT
                &&& target is Texture ==> barrier.src_stage == STAGE_ALL_COMMANDS
                    && barrier.src_access == ACCESS_MEMORY
                &&& target is Dmabuf ==> barrier.src_family == QUEUE_FAMILY_FOREIGN
                    && barrier.dst_family == queue_family
            }
            &&& given[0] is EndRendering
            &&& given[i + 1] matches Command::Barrier(barrier) && {
                &&& barrier.image == images[i]
                &&& barrier.src_family == queue_family && barrier.dst_family == QUEUE_FAMILY_FOREIGN
                &&& barrier.src_stage == STAGE_FRAGMENT_SHADER
                &&& barrier.src_access == ACCESS_SHADER_READ
            }
            &&& given[n as int + 1] matches Command::Barrier(barrier) && {
                &&& barrier.image == target.target_image()
                &&& barrier.src_stage == STAGE_COLOR_ATTACHMENT_OUTPUT
                &&& target is Texture ==> barrier.src_access == ACCESS_COLOR_ATTACHMENT_WRITE
                    && barrier.dst_stage == STAGE_FRAGMENT_SHADER && barrier.dst_access
                    == ACCESS_SHADER_READ
                &&& target is Dmabuf ==> barrier.src_access == ACCESS_COLOR_ATTACHMENT
                    && barrier.src_family == queue_family && barrier.dst_family
                    == QUEUE_FAMILY_FOREIGN
            }
        }),
{
}

/// A frame that uses a texture remembers its image, and takes it over from outside exactly if the
/// texture was imported; it takes over no image twice. Nothing else about the frame changes. A
/// blit within a frame is remembered too, and no pipeline counts as bound after it.
pub proof fn law_frames_remember_what_they_use(
    frame: FrameModel,
    image: u64,
    imported: bool,
    other: u64,
)
    ensures
        ({
            let after = frame.using(image, imported);
            &&& after.used.contains(other) <==> frame.used.contains(other) || other == image
            &&& after.foreign.contains(other) <==> frame.foreign.contains(other) || (imported
                && other == image)
            &&& frame.foreign.no_duplicates() ==> after.foreign.no_duplicates()
            &&& frame.foreign.is_prefix_of(after.foreign)
            &&& after.pipeline == frame.pipeline && after.finished == frame.finished
            &&& after.size == frame.size && after.buffer_size == frame.buffer_size
            &&& after.transform == frame.transform && after.initial_layout == frame.initial_layout
        }),
        ({
            let after = frame.blitted(image);
            &&& after.used.contains(other) <==> frame.used.contains(other) || other == image
            &&& after.foreign == frame.foreign
            &&& after.pipeline is None && after.finished == frame.finished
            &&& after.size == frame.size && after.buffer_size == frame.buffer_size
            &&& after.transform == frame.transform && after.initial_layout == frame.initial_layout
        }),
{
    lemma_pushed(frame.used, image, other);
    lemma_pushed(frame.foreign, image, other);
}

proof fn lemma_pushed(images: Seq<u64>, image: u64, other: u64)
    ensures
        images.push(image).contains(other) <==> images.contains(other) || other == image,
{
    let all = images.push(image);
    assert(all[images.len() as int] == image);
    if images.contains(other) {
        let i = choose|i: int| 0 <= i < images.len() && images[i] == other;
        assert(all[i] == other);
    }
}

/// A finished frame hands over what it used and took over, once. Finishing changes the layout of
/// a texture that was rendered to, so that it can be sampled, and nothing else about a target;
/// taking over makes a buffer count as initialized, and nothing else.
pub proof fn law_finishing_hands_over(frame: FrameModel, target: VulkanTarget)
    ensures
        frame.finished <==> frame.finish() is None,
        frame.finish() matches Some(end) ==> {
            &&& end.foreign == frame.foreign
            &&& end.used == frame.used
            &&& end.initial_layout == frame.initial_layout
        },
        frame.after_finish().finished,
        frame.after_finish().size == frame.size,
        frame.after_finish().transform == frame.transform,
        match (target, target.rendered()) {
            (VulkanTarget::Dmabuf(before), VulkanTarget::Dmabuf(after)) => before == after,
            (VulkanTarget::Texture(before), VulkanTarget::Texture(after)) => {
                &&& after.layout == ImageLayout::ShaderReadOnlyOptimal
                &&& after == (VulkanTexture {
                    layout: after.layout,
                    ..before
                })
            },
            _ => false,
        },
        match (target, target.acquired()) {
            (VulkanTarget::Dmabuf(before), VulkanTarget::Dmabuf(after)) => {
                &&& after.transitioned
                &&& after == (RenderBuffer {
                    transitioned: true,
                    ..before
                })
            },
            (VulkanTarget::Texture(before), VulkanTarget::Texture(after)) => before == after,
            _ => false,
        },
{
}

/// The fence of a submitted frame is that of its submission: it has its point, and it can be
/// exported exactly if a semaphore was signaled for that. The images that the frame used, and no
/// others, are marked as used until that point.
pub proof fn law_submitted_frames_mark_their_images(
    submit: FrameSubmitModel,
    done: SubmittedModel,
    image: VulkanTarget,
)
    ensures
        submit.submitted().fence.point == submit.submit.point,
        submit.submitted().used == submit.used,
        match submit.submit.export_semaphore {
            Some(semaphore) => submit.submitted().fence.binary == Some(
                BinarySemaphore::Unexported(semaphore),
            ),
            None => submit.submitted().fence.binary is None,
        },
        done.used.contains(image.target_image()) ==> done.marked(image).used_until()
            >= done.fence.point,
        !done.used.contains(image.target_image()) ==> done.marked(image) == image,
{
}

/// Marking a target as used moves the point until which it is used, forward only and no further
/// than needed, and changes nothing else.
pub proof fn law_use_moves_forward(target: VulkanTarget, point: u64)
    ensures
        target.used(point).used_until() >= point,
        target.used(point).used_until() >= target.used_until(),
        target.used(point).used_until() == point || target.used(point).used_until()
            == target.used_until(),
        match (target, target.used(point)) {
            (VulkanTarget::Dmabuf(before), VulkanTarget::Dmabuf(after)) => after == (
            RenderBuffer {
                last_use: after.last_use,
                ..before
            }),
            (VulkanTarget::Texture(before), VulkanTarget::Texture(after)) => after == (
            VulkanTexture {
                last_use: after.last_use,
                ..before
            }),
            _ => false,
        },
{
}

} // verus!
