//! Frames keep track of what they use: every image that their commands concern is marked as used
//! until the point of the timeline at which the frame is complete.

use vstd::prelude::*;

use crate::backend::renderer::geometry::{Point, Rectangle, Size};
use crate::backend::renderer::vulkan::color_params::ColorBlendParams;
use crate::backend::renderer::vulkan::commands::{Command, Fill, ImageLayout, TextureFilter};
use crate::backend::renderer::vulkan::draw;
use crate::backend::renderer::vulkan::fence::VulkanFence;
use crate::backend::renderer::vulkan::frame;
use crate::backend::renderer::vulkan::frame::FrameModel;
use crate::backend::renderer::vulkan::frame_validity;
use crate::backend::renderer::vulkan::queue::{QueueSignal, SubmissionsModel};
use crate::backend::renderer::vulkan::texture::VulkanTarget;

verus! {

impl VulkanTarget {
    /// The point of the timeline until which the target is used.
    pub open spec fn used_until(self) -> u64 {
        match self {
            VulkanTarget::Dmabuf(buffer) => buffer.last_use,
            VulkanTarget::Texture(texture) => texture.last_use,
        }
    }
}

/// Whether an image is the target, or among those that are used besides it.
pub open spec fn is_known(target: u64, used: Seq<u64>, image: u64) -> bool {
    image == target || used.contains(image)
}

/// Whether commands concern no other images than the target and those that are used.
pub open spec fn concern_known(list: Seq<Command>, target: u64, used: Seq<u64>) -> bool {
    forall|i: int, image: u64|
        0 <= i < list.len() && #[trigger] frame_validity::touches(list[i], image) ==> is_known(
            target,
            used,
            image,
        )
}

/// Whether a frame knows all images that it uses: those that its recorded commands concern, and
/// the imported textures, which it takes over and gives back.
pub open spec fn is_tracked(frame: FrameModel, target: u64, recorded: Seq<Command>) -> bool {
    &&& concern_known(recorded, target, frame.used)
    &&& forall|i: int| 0 <= i < frame.foreign.len() ==> frame.used.contains(#[trigger] frame.foreign[i])
}

/// Images stay known when more are used, and more commands that concern known ones are recorded.
proof fn lemma_more(
    recorded: Seq<Command>,
    more: Seq<Command>,
    target: u64,
    used: Seq<u64>,
    all: Seq<u64>,
)
    requires
        concern_known(recorded, target, used),
        concern_known(more, target, all),
        forall|image: u64| used.contains(image) ==> #[trigger] all.contains(image),
    ensures
        concern_known(recorded + more, target, all),
{
    let list = recorded + more;
    assert forall|i: int, image: u64|
        0 <= i < list.len() && #[trigger] frame_validity::touches(list[i], image) implies is_known(
        target,
        all,
        image,
    ) by {
        if i < recorded.len() {
            assert(frame_validity::touches(recorded[i], image));
        } else {
            assert(frame_validity::touches(more[i - recorded.len()], image));
        }
    }
}

/// What is used stays used.
proof fn lemma_pushed(used: Seq<u64>, image: u64)
    ensures
        used.push(image).contains(image),
        forall|other: u64| used.contains(other) ==> #[trigger] used.push(image).contains(other),
{
    let all = used.push(image);
    assert(all[used.len() as int] == image);
    assert forall|other: u64| used.contains(other) implies #[trigger] all.contains(other) by {
        let k = used.index_of(other);
        assert(all[k] == other);
    }
}

/// Draws concern no image.
proof fn lemma_draws(
    bind: Seq<Command>,
    rects: Seq<Rectangle>,
    area: Size,
    offset: Point,
    fill: Fill,
    target: u64,
    used: Seq<u64>,
)
    requires
        concern_known(bind, target, used),
    ensures
        concern_known(bind + draw::draws(rects, area, offset, fill), target, used),
{
    let list = draw::draws(rects, area, offset, fill);
    frame_validity::lemma_draws_are_neutral(rects, area, offset, fill);
    assert forall|i: int, image: u64|
        0 <= i < list.len() && #[trigger] frame_validity::touches(list[i], image) implies is_known(
        target,
        used,
        image,
    ) by {
        assert(frame_validity::is_neutral(list[i]));
    }
    lemma_more(bind, list, target, used, used);
}

/// A new frame knows what it uses.
pub proof fn law_new_frames_are_tracked(frame: FrameModel, target: VulkanTarget, size: Size)
    requires
        frame.foreign.len() == 0,
    ensures
        is_tracked(
            frame,
            target.target_image(),
            seq![Command::SetArea(size), frame::begin_command(target, size)],
        ),
{
}

/// A frame in which something is filled with a color knows what it uses.
pub proof fn law_solid_draws_are_tracked(
    frame: FrameModel,
    target: u64,
    recorded: Seq<Command>,
    pipeline: u64,
    dest: Rectangle,
    damage: Seq<Rectangle>,
    color: [u32; 4],
)
    requires
        is_tracked(frame, target, recorded),
    ensures
        is_tracked(
            FrameModel {
                pipeline: frame::bound_after(frame.pipeline, pipeline, damage),
                ..frame
            },
            target,
            recorded + frame::solid_commands(frame.pipeline, pipeline, dest, damage, color),
        ),
{
    let more = frame::solid_commands(frame.pipeline, pipeline, dest, damage, color);
    if damage.len() > 0 {
        let bind = frame::bind_commands(frame.pipeline, pipeline);
        let fill = Fill::Color(color);
        lemma_draws(bind, damage, dest.size, dest.loc, fill, target, frame.used);
    }
    lemma_more(recorded, more, target, frame.used, frame.used);
}

proof fn lemma_textured(
    bound: Option<u64>,
    pipeline: u64,
    set: u64,
    image: u64,
    params: Option<ColorBlendParams>,
    fill: Fill,
    dest: Rectangle,
    damage: Seq<Rectangle>,
    target: u64,
    used: Seq<u64>,
)
    requires
        used.contains(image),
    ensures
        concern_known(
            frame::textured_commands(bound, pipeline, set, image, params, fill, dest, damage),
            target,
            used,
        ),
{
    if damage.len() > 0 {
        let bind = frame::bind_commands(bound, pipeline) + seq![
            Command::BindTexture { set, image, params },
        ];
        lemma_draws(bind, damage, dest.size, Point { x: 0, y: 0 }, fill, target, used);
    }
}

/// A frame in which a texture is drawn knows what it uses.
pub proof fn law_texture_draws_are_tracked(
    frame: FrameModel,
    target: u64,
    recorded: Seq<Command>,
    imported: bool,
    image: u64,
    blending: u64,
    replacing: u64,
    set: u64,
    params: Option<ColorBlendParams>,
    fill: Fill,
    dest: Rectangle,
    blended: Seq<Rectangle>,
    opaque: Seq<Rectangle>,
)
    requires
        is_tracked(frame, target, recorded),
    ensures
        is_tracked(
            FrameModel {
                pipeline: frame::bound_after(
                    frame::bound_after(frame.pipeline, blending, blended),
                    replacing,
                    opaque,
                ),
                ..frame.using(image, imported)
            },
            target,
            recorded + frame::texture_commands(
                frame.pipeline,
                blending,
                replacing,
                set,
                image,
                params,
                fill,
                dest,
                blended,
                opaque,
            ),
        ),
{
    let using = frame.using(image, imported);
    lemma_pushed(frame.used, image);
    assert forall|i: int| 0 <= i < using.foreign.len() implies using.used.contains(
        #[trigger] using.foreign[i],
    ) by {
        if i < frame.foreign.len() {
            assert(using.foreign[i] == frame.foreign[i]);
        }
    }
    let first = frame::textured_commands(
        frame.pipeline,
        blending,
        set,
        image,
        params,
        fill,
        dest,
        blended,
    );
    let then = frame::bound_after(frame.pipeline, blending, blended);
    let second = frame::textured_commands(then, replacing, set, image, params, fill, dest, opaque);
    lemma_textured(
        frame.pipeline,
        blending,
        set,
        image,
        params,
        fill,
        dest,
        blended,
        target,
        using.used,
    );
    lemma_textured(then, replacing, set, image, params, fill, dest, opaque, target, using.used);
    lemma_more(first, second, target, using.used, using.used);
    lemma_more(recorded, first + second, target, frame.used, using.used);
}

/// A frame with a blit between its target and another image knows what it uses.
pub proof fn law_blits_are_tracked(
    frame: FrameModel,
    target: VulkanTarget,
    recorded: Seq<Command>,
    other: VulkanTarget,
    src: Rectangle,
    dst: Rectangle,
    filter: TextureFilter,
    to_other: bool,
    queue_family: u32,
)
    requires
        is_tracked(frame, target.target_image(), recorded),
    ensures
        is_tracked(
            frame.blitted(other.target_image()),
            target.target_image(),
            recorded + frame::frame_blit_commands(
                target,
                other,
                src,
                dst,
                filter,
                to_other,
                frame.buffer_size,
                queue_family,
            ),
        ),
{
    let after = frame.blitted(other.target_image());
    lemma_pushed(frame.used, other.target_image());
    assert forall|i: int| 0 <= i < after.foreign.len() implies after.used.contains(
        #[trigger] after.foreign[i],
    ) by {
        assert(frame.used.contains(frame.foreign[i]));
    }
    let more = frame::frame_blit_commands(
        target,
        other,
        src,
        dst,
        filter,
        to_other,
        frame.buffer_size,
        queue_family,
    );
    lemma_more(recorded, more, target.target_image(), frame.used, after.used);
}

/// The barriers of imported textures concern these textures.
proof fn lemma_barriers(
    images: Seq<u64>,
    acquire: bool,
    queue_family: u32,
    target: u64,
    used: Seq<u64>,
)
    requires
        forall|i: int| 0 <= i < images.len() ==> used.contains(#[trigger] images[i]),
    ensures
        concern_known(frame::texture_barriers(images, acquire, queue_family), target, used),
{
    let list = frame::texture_barriers(images, acquire, queue_family);
    assert forall|i: int, image: u64|
        0 <= i < list.len() && #[trigger] frame_validity::touches(list[i], image) implies is_known(
        target,
        used,
        image,
    ) by {
        assert(used.contains(images[i]));
    }
}

/// All commands of a frame that was finished: those that take over its images, those that were
/// recorded, and those that give the images back.
pub open spec fn all_commands(
    frame: FrameModel,
    target: VulkanTarget,
    recorded: Seq<Command>,
    queue_family: u32,
) -> Seq<Command> {
    frame::acquire_commands(frame.foreign, target, frame.initial_layout, queue_family) + recorded
        + frame::release_commands(frame.foreign, target, queue_family)
}

/// A finished frame knows what it uses: every image that any of its commands concerns is its
/// target or one of those that are marked.
pub proof fn law_finished_frames_are_tracked(
    frame: FrameModel,
    target: VulkanTarget,
    recorded: Seq<Command>,
    queue_family: u32,
)
    requires
        is_tracked(frame, target.target_image(), recorded),
    ensures
        concern_known(
            all_commands(frame, target, recorded, queue_family),
            target.target_image(),
            frame.used,
        ),
{
    let image = target.target_image();
    let used = frame.used;
    let taken = frame::texture_barriers(frame.foreign, true, queue_family);
    let given = frame::texture_barriers(frame.foreign, false, queue_family);
    let take = Command::Barrier(
        frame::target_acquire_barrier(target, frame.initial_layout, queue_family),
    );
    let give = Command::Barrier(frame::target_release_barrier(target, queue_family));
    lemma_barriers(frame.foreign, true, queue_family, image, used);
    lemma_barriers(frame.foreign, false, queue_family, image, used);
    lemma_more(taken, seq![take], image, used, used);
    lemma_more(given, seq![give], image, used, used);
    lemma_more(seq![Command::EndRendering], given.push(give), image, used, used);
    assert(taken + seq![take] =~= taken.push(take));
    assert(given + seq![give] =~= given.push(give));
    lemma_more(taken.push(take), recorded, image, used, used);
    lemma_more(
        taken.push(take) + recorded,
        frame::release_commands(frame.foreign, target, queue_family),
        image,
        used,
        used,
    );
}

/// A frame is submitted once. The submission executes the commands that take over the images
/// before those of the frame, and signals the next point of the timeline, which the returned
/// fence tracks. The target and every image that a command of the frame concerns are used until
/// that point; an offscreen target is readable. Finishing the frame again submits nothing.
pub proof fn law_frames_are_submitted_once(
    frame: FrameModel,
    target: VulkanTarget,
    recorded: Seq<Command>,
    queue_family: u32,
    submissions: SubmissionsModel,
    acquire_buffer: u64,
    frame_buffer: u64,
    export_semaphore: Option<u64>,
)
    requires
        !frame.finished,
        is_tracked(frame, target.target_image(), recorded),
        submissions.point < u64::MAX,
    ensures
        frame.finish() is Some,
        ({
            let point = (submissions.point + 1) as u64;
            let submit = frame.finish()->0.submit(
                submissions,
                acquire_buffer,
                frame_buffer,
                export_semaphore,
            );
            let done = submit.submitted();
            let end = target.rendered().acquired().used(point);
            &&& submit.submit.command_buffers == seq![acquire_buffer, frame_buffer]
            &&& submit.submit.signals.contains(QueueSignal::Point(point))
            &&& done.fence.point == point
            &&& end.used_until() >= point
            &&& end matches VulkanTarget::Texture(texture) ==> texture.layout
                == ImageLayout::ShaderReadOnlyOptimal
            &&& forall|i: int, image: VulkanTarget|
                #![trigger frame_validity::touches(
                    all_commands(frame, target, recorded, queue_family)[i],
                    image.target_image(),
                )]
                0 <= i < all_commands(frame, target, recorded, queue_family).len()
                    && frame_validity::touches(
                    all_commands(frame, target, recorded, queue_family)[i],
                    image.target_image(),
                ) && image.target_image() != target.target_image() ==> done.marked(
                    image,
                ).used_until() >= point
        }),
        frame.after_finish().finish() is None,
        frame.after_finish().after_finish() == frame.after_finish(),
{
    let point = (submissions.point + 1) as u64;
    let submit = frame.finish()->0.submit(
        submissions,
        acquire_buffer,
        frame_buffer,
        export_semaphore,
    );
    assert(submit.submit.signals[0] == QueueSignal::Point(point));
    law_finished_frames_are_tracked(frame, target, recorded, queue_family);
}

/// The fence of a blit within a frame tracks the submission of the frame: nothing is submitted
/// between, so that its point is the one that the submission signals. It is not reached as long
/// as the timeline has only the points of earlier submissions.
pub proof fn law_blits_complete_with_their_frame(
    frame: FrameModel,
    at_blit: SubmissionsModel,
    at_finish: SubmissionsModel,
    acquire_buffer: u64,
    frame_buffer: u64,
    export_semaphore: Option<u64>,
    fence: VulkanFence,
)
    requires
        !frame.finished,
        at_blit.point < u64::MAX,
        at_finish.point == at_blit.point,
        fence.point == at_blit.next_point(),
    ensures
        ({
            let submit = frame.finish()->0.submit(
                at_finish,
                acquire_buffer,
                frame_buffer,
                export_semaphore,
            );
            &&& submit.submit.signals.contains(QueueSignal::Point(fence.point))
            &&& submit.submitted().fence.point == fence.point
            &&& forall|counter: u64|
                counter <= at_finish.point ==> !#[trigger] fence.is_reached(Some(counter))
            &&& fence.is_reached(Some(submit.submitted().fence.point))
        }),
{
    let submit = frame.finish()->0.submit(
        at_finish,
        acquire_buffer,
        frame_buffer,
        export_semaphore,
    );
    assert(submit.submit.signals[0] == QueueSignal::Point(fence.point));
}

} // verus!
