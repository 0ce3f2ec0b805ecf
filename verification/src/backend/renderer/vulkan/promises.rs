//! What drawing, copying and uploading promise, in terms of what goes in and what comes out.

use vstd::prelude::*;

use crate::backend::renderer::geometry::{Point, Rectangle, Size, Transform};
use crate::backend::renderer::region;
use crate::backend::renderer::vulkan::color_params::ColorBlendParams;
use crate::backend::renderer::vulkan::commands::{Command, Fill, ImageLayout, TextureFilter};
use crate::backend::renderer::vulkan::device::CleanupItem;
use crate::backend::renderer::vulkan::draw::FULL_ALPHA;
use crate::backend::renderer::vulkan::error::VulkanError;
use crate::backend::renderer::vulkan::fence::VulkanFence;
use crate::backend::renderer::vulkan::formats::{Fourcc, VkFormat};
use crate::backend::renderer::vulkan::frame::{FinishedFrame, SubmittedFrame, VulkanFrame};
use crate::backend::renderer::vulkan::frame_draws::{Bindings, BoundTexture};
use crate::backend::renderer::vulkan::pipelines::{PipelineCache, PipelineKey};
use crate::backend::renderer::vulkan::texture::{VulkanTarget, VulkanTexture};
use crate::backend::renderer::vulkan::transfer::{
    BlitFences, CopyPlan, CopySource, ImageRequest, OwnedBuffer, OwnedImage, Submission,
};
use crate::backend::renderer::vulkan::upload::{UploadPlan, update_memory, upload_memory};
use crate::backend::renderer::vulkan::{
    commands, draw, formats, frame, frame_blits, frame_draws, transfer, upload,
};

verus! {

/// A texture is drawn as it is asked for. Whatever the draw adds to the commands is filled with the
/// texture at the opacity that it was given, from the descriptor set and with the color parameters
/// that it was given, through a pipeline for the format of the target. What it draws covers the
/// damage, each part of it once, and what is not known to be opaque is blended.
pub proof fn law_render_texture(
    frame: &mut VulkanFrame,
    target: &VulkanTarget,
    pipelines: &PipelineCache,
    texture: &VulkanTexture,
    set: u64,
    own: Option<ColorBlendParams>,
    default: Option<ColorBlendParams>,
    dest: Rectangle,
    damage: &Vec<Rectangle>,
    opaque_regions: &Vec<Rectangle>,
    alpha: u32,
    tinted: bool,
    commands: &mut Vec<Command>,
)
    requires
        call_ensures(
            VulkanFrame::render_texture,
            (
                frame,
                target,
                pipelines,
                texture,
                set,
                own,
                default,
                dest,
                damage,
                opaque_regions,
                alpha,
                tinted,
                commands,
            ),
            (),
        ),
        region::is_regular(dest),
    ensures
        old(commands)@.is_prefix_of(final(commands)@),
        forall|i: int|
            old(commands)@.len() <= i < final(commands)@.len() ==> match #[trigger] final(commands)@[i] {
                Command::Draw { fill, .. } => fill == (Fill::Texture { alpha, tinted }),
                Command::BindTexture { set: s, image, params } => s == set && image == texture.image
                    && params == (if own is Some {
                    own
                } else {
                    default
                }),
                Command::BindPipeline(pipeline) => exists|blend: bool|
                    pipelines.pipeline(
                        PipelineKey::BuiltIn { format: target.target_format(), solid: false, blend },
                    )->0 == pipeline,
                _ => false,
            },
        exists|blended: Seq<Rectangle>, opaque: Seq<Rectangle>|
            {
                &&& #[trigger] is_division(
                    damage@,
                    blended,
                    opaque,
                    opaque_regions@,
                    alpha,
                    texture.has_alpha,
                )
                &&& is_drawn(
                    final(commands)@.skip(old(commands)@.len() as int),
                    Bindings { pipeline: old(frame)@.pipeline, texture: None },
                    blended,
                    opaque,
                    dest.size,
                    Fill::Texture { alpha, tinted },
                    pipelines.pipeline(
                        PipelineKey::BuiltIn {
                            format: target.target_format(),
                            solid: false,
                            blend: true,
                        },
                    )->0,
                    pipelines.pipeline(
                        PipelineKey::BuiltIn {
                            format: target.target_format(),
                            solid: false,
                            blend: false,
                        },
                    )->0,
                    BoundTexture {
                        set,
                        image: texture.image,
                        params: if own is Some {
                            own
                        } else {
                            default
                        },
                    },
                )
            },
        final(frame)@.used == old(frame)@.used,
        final(frame)@.foreign == old(frame)@.foreign,
        final(frame)@.finished == old(frame)@.finished,
{
    let ghost params = if own is Some {
        own
    } else {
        default
    };
    let (blended, opaque) = choose|blended: Seq<Rectangle>, opaque: Seq<Rectangle>|
        {
            &&& #[trigger] draw::is_split(
                damage@,
                opaque_regions@,
                texture.has_alpha,
                alpha,
                blended,
                opaque,
            )
            &&& final(commands)@ == old(commands)@ + frame::texture_commands(
                old(frame)@.pipeline,
                frame::pipeline_of(pipelines, *target, false, true),
                frame::pipeline_of(pipelines, *target, false, false),
                set,
                texture.image,
                params,
                Fill::Texture { alpha, tinted },
                dest,
                blended,
                opaque,
            )
        };
    let blending = frame::pipeline_of(pipelines, *target, false, true);
    let replacing = frame::pipeline_of(pipelines, *target, false, false);
    let list = frame::texture_commands(
        old(frame)@.pipeline,
        blending,
        replacing,
        set,
        texture.image,
        params,
        Fill::Texture { alpha, tinted },
        dest,
        blended,
        opaque,
    );
    let n = old(commands)@.len() as int;
    frame_draws::law_opacity_is_that_of_the_draw(
        old(frame)@.pipeline,
        blending,
        replacing,
        set,
        texture.image,
        params,
        alpha,
        tinted,
        dest,
        blended,
        opaque,
    );
    assert forall|i: int| n <= i < final(commands)@.len() implies #[trigger] final(commands)@[i]
        == list[i - n] by {}
    assert(final(commands)@.skip(n) =~= list);
    frame_draws::law_texture_draws_fill_the_damage(
        old(frame)@.pipeline,
        blending,
        replacing,
        BoundTexture { set, image: texture.image, params },
        Fill::Texture { alpha, tinted },
        dest,
        blended,
        opaque,
        None,
    );
    assert forall|x: int, y: int| divides_at(
        damage@,
        blended,
        opaque,
        opaque_regions@,
        alpha,
        texture.has_alpha,
        x,
        y,
    ) by {
        draw::law_split_keeps_the_damage(
            damage@,
            opaque_regions@,
            texture.has_alpha,
            alpha,
            blended,
            opaque,
            x,
            y,
        );
        draw::law_opaque_parts_are_not_blended(
            damage@,
            opaque_regions@,
            texture.has_alpha,
            alpha,
            blended,
            opaque,
            x,
            y,
        );
    }
    assert(is_division(
        damage@,
        blended,
        opaque,
        opaque_regions@,
        alpha,
        texture.has_alpha,
    ));
}

/// Whether damage is divided into what is blended and what is not.
pub open spec fn is_division(
    damage: Seq<Rectangle>,
    blended: Seq<Rectangle>,
    opaque: Seq<Rectangle>,
    opaque_regions: Seq<Rectangle>,
    alpha: u32,
    has_alpha: bool,
) -> bool {
    forall|x: int, y: int|
        divides_at(damage, blended, opaque, opaque_regions, alpha, has_alpha, x, y)
}

/// Whether a point is covered as often as it is damaged, by what is blended unless it is known to
/// be opaque.
pub open spec fn divides_at(
    damage: Seq<Rectangle>,
    blended: Seq<Rectangle>,
    opaque: Seq<Rectangle>,
    opaque_regions: Seq<Rectangle>,
    alpha: u32,
    has_alpha: bool,
    x: int,
    y: int,
) -> bool {
    let known = alpha == FULL_ALPHA && (!has_alpha || region::cover(opaque_regions, x, y) > 0);
    &&& known ==> region::cover(opaque, x, y) == region::cover(damage, x, y) && region::cover(
        blended,
        x,
        y,
    ) == 0
    &&& !known ==> region::cover(blended, x, y) == region::cover(damage, x, y) && region::cover(
        opaque,
        x,
        y,
    ) == 0
}

/// Whether commands draw exactly the parts of the blended and then those of the opaque rectangles,
/// each through its pipeline, all from one texture and with one fill.
pub open spec fn is_drawn(
    list: Seq<Command>,
    before: Bindings,
    blended: Seq<Rectangle>,
    opaque: Seq<Rectangle>,
    area: Size,
    fill: Fill,
    blending: u64,
    replacing: u64,
    texture: BoundTexture,
) -> bool {
    let drawn = frame_draws::drawn_by(list, before);
    exists|n: int|
        {
            &&& 0 <= n <= drawn.len()
            &&& #[trigger] frame_draws::draws_parts(
                drawn.take(n),
                blended,
                area,
                Point { x: 0, y: 0 },
                fill,
                Bindings { pipeline: Some(blending), texture: Some(texture) },
            )
            &&& frame_draws::draws_parts(
                drawn.skip(n),
                opaque,
                area,
                Point { x: 0, y: 0 },
                fill,
                Bindings { pipeline: Some(replacing), texture: Some(texture) },
            )
        }
}

/// A solid draw fills the damaged parts of its destination with its color, blended exactly if the
/// color is not opaque.
pub proof fn law_draw_solid(
    frame: &mut VulkanFrame,
    target: &VulkanTarget,
    pipelines: &PipelineCache,
    dst: Rectangle,
    damage: &Vec<Rectangle>,
    color: [u32; 4],
    commands: &mut Vec<Command>,
)
    requires
        call_ensures(
            VulkanFrame::draw_solid,
            (frame, target, pipelines, dst, damage, color, commands),
            (),
        ),
        region::is_regular(dst),
    ensures
        old(commands)@.is_prefix_of(final(commands)@),
        frame_draws::draws_parts(
            frame_draws::drawn_by(
                final(commands)@.skip(old(commands)@.len() as int),
                Bindings { pipeline: old(frame)@.pipeline, texture: None },
            ),
            damage@,
            dst.size,
            dst.loc,
            Fill::Color(color),
            Bindings {
                pipeline: Some(
                    pipelines.pipeline(
                        PipelineKey::BuiltIn {
                            format: target.target_format(),
                            solid: true,
                            blend: color@[3] != FULL_ALPHA,
                        },
                    )->0,
                ),
                texture: None,
            },
        ),
        final(frame)@.used == old(frame)@.used,
        final(frame)@.foreign == old(frame)@.foreign,
{
    let pipeline = frame::pipeline_of(pipelines, *target, true, color@[3] != FULL_ALPHA);
    let list = frame::solid_commands(old(frame)@.pipeline, pipeline, dst, damage@, color);
    assert(final(commands)@.skip(old(commands)@.len() as int) =~= list);
    frame_draws::law_solid_draws_fill_the_damage(
        old(frame)@.pipeline,
        pipeline,
        dst,
        damage@,
        color,
        None,
    );
}

/// Clearing replaces the given parts of the frame, and nothing else, by the color; nothing is
/// blended.
pub proof fn law_clear(
    frame: &mut VulkanFrame,
    target: &VulkanTarget,
    pipelines: &PipelineCache,
    at: &Vec<Rectangle>,
    color: [u32; 4],
    commands: &mut Vec<Command>,
)
    requires
        call_ensures(VulkanFrame::clear, (frame, target, pipelines, at, color, commands), ()),
        old(frame)@.size.w >= 0,
        old(frame)@.size.h >= 0,
    ensures
        old(commands)@.is_prefix_of(final(commands)@),
        frame_draws::draws_parts(
            frame_draws::drawn_by(
                final(commands)@.skip(old(commands)@.len() as int),
                Bindings { pipeline: old(frame)@.pipeline, texture: None },
            ),
            at@,
            old(frame)@.size,
            Point { x: 0, y: 0 },
            Fill::Color(color),
            Bindings {
                pipeline: Some(
                    pipelines.pipeline(
                        PipelineKey::BuiltIn {
                            format: target.target_format(),
                            solid: true,
                            blend: false,
                        },
                    )->0,
                ),
                texture: None,
            },
        ),
        final(frame)@.used == old(frame)@.used,
        final(frame)@.foreign == old(frame)@.foreign,
{
    let pipeline = frame::pipeline_of(pipelines, *target, true, false);
    let dest = Rectangle { loc: Point { x: 0, y: 0 }, size: old(frame)@.size };
    let list = frame::solid_commands(old(frame)@.pipeline, pipeline, dest, at@, color);
    assert(final(commands)@.skip(old(commands)@.len() as int) =~= list);
    frame_draws::law_solid_draws_fill_the_damage(
        old(frame)@.pipeline,
        pipeline,
        dest,
        at@,
        color,
        None,
    );
}

/// A blit out of a frame reads the region of the frame's target and writes the region of the other
/// image, and a blit into a frame does the reverse. A blit onto the target itself is refused and
/// records nothing.
pub proof fn law_blit_within_a_frame(
    frame: &mut VulkanFrame,
    target: &VulkanTarget,
    other: &mut VulkanTarget,
    src: Rectangle,
    dst: Rectangle,
    filter: TextureFilter,
    queue_family: u32,
    next_point: u64,
    commands: &mut Vec<Command>,
    to_other: bool,
    r: Result<VulkanFence, VulkanError>,
)
    requires
        to_other ==> call_ensures(
            VulkanFrame::blit_to,
            (frame, target, other, src, dst, filter, queue_family, next_point, commands),
            r,
        ),
        !to_other ==> call_ensures(
            VulkanFrame::blit_from,
            (frame, target, other, src, dst, filter, queue_family, next_point, commands),
            r,
        ),
        src.is_bounded(),
        dst.is_bounded(),
    ensures
        ({
            let same = old(other).target_image() == target.target_image();
            let n = old(commands)@.len() as int;
            &&& same <==> r == Err::<VulkanFence, VulkanError>(VulkanError::BlitSameImage)
            &&& same ==> final(commands)@ == old(commands)@ && final(frame)@ == old(frame)@
            &&& !same ==> {
                &&& r == Ok::<VulkanFence, VulkanError>(VulkanFence { point: next_point, binary: None })
                &&& old(commands)@.is_prefix_of(final(commands)@)
                &&& final(commands)@.len() >= n + 7
                &&& final(commands)@[n] is EndRendering
                &&& final(commands)@[n + 3] matches Command::Blit {
                    src_image,
                    src_from,
                    src_to,
                    dst_image,
                    dst_from,
                    dst_to,
                    filter: f,
                    ..
                } && {
                    &&& to_other ==> src_image == target.target_image() && dst_image == old(other).target_image()
                    &&& !to_other ==> src_image == old(other).target_image() && dst_image
                        == target.target_image()
                    &&& src_from == src.loc && dst_from == dst.loc
                    &&& src_to.x == src.loc.x + src.size.w && src_to.y == src.loc.y + src.size.h
                    &&& dst_to.x == dst.loc.x + dst.size.w && dst_to.y == dst.loc.y + dst.size.h
                    &&& f == filter
                }
                &&& final(commands)@.last() == Command::SetArea(old(frame)@.buffer_size)
                &&& final(frame)@.used == old(frame)@.used.push(old(other).target_image())
                &&& final(frame)@.pipeline is None
            }
            &&& final(other).target_image() == old(other).target_image()
            &&& final(other).used_until() == old(other).used_until()
        }),
{
    let list = frame::frame_blit_commands(
        *target,
        *old(other),
        src,
        dst,
        filter,
        to_other,
        old(frame)@.buffer_size,
        queue_family,
    );
    frame_blits::law_frame_blit_copies_the_region(
        *target,
        *old(other),
        src,
        dst,
        filter,
        to_other,
        old(frame)@.buffer_size,
        queue_family,
    );
    if old(other).target_image() != target.target_image() {
        let n = old(commands)@.len() as int;
        assert(final(commands)@[n] == list[0]);
        assert(final(commands)@[n + 3] == list[3]);
    }
}

/// A new frame sets up the whole of the output and begins to render to its target. It has used
/// nothing yet, and its own size is that of the output as it is turned.
pub proof fn law_new_frame(
    target: &VulkanTarget,
    output_size: Size,
    transform: Transform,
    commands: &mut Vec<Command>,
    frame: VulkanFrame,
)
    requires
        call_ensures(VulkanFrame::new, (target, output_size, transform, commands), frame),
    ensures
        final(commands)@.len() == old(commands)@.len() + 2,
        old(commands)@.is_prefix_of(final(commands)@),
        final(commands)@[old(commands)@.len() as int] == Command::SetArea(output_size),
        final(commands)@.last() matches Command::BeginRendering { image, size, .. } && image
            == target.target_image() && size == output_size,
        frame@.used.len() == 0,
        frame@.foreign.len() == 0,
        frame@.pipeline is None,
        !frame@.finished,
        frame@.transform == transform,
        frame@.size == transform.sized(output_size),
        frame@.buffer_size == output_size,
{
}

/// A texture counts as used exactly if something of it is drawn: there is damage, and neither the
/// source nor the texture is empty.
pub proof fn law_use_texture(
    frame: &mut VulkanFrame,
    texture: &VulkanTexture,
    src_empty: bool,
    damage: &Vec<Rectangle>,
    draws: bool,
)
    requires
        call_ensures(VulkanFrame::use_texture, (frame, texture, src_empty, damage), draws),
    ensures
        draws <==> damage@.len() > 0 && !src_empty && texture.size.w != 0 && texture.size.h != 0,
        !draws ==> final(frame)@ == old(frame)@,
        draws ==> {
            &&& final(frame)@.used == old(frame)@.used.push(texture.image)
            &&& texture.dmabuf_imported ==> final(frame)@.foreign.contains(texture.image)
            &&& !texture.dmabuf_imported ==> final(frame)@.foreign == old(frame)@.foreign
            &&& final(frame)@.pipeline == old(frame)@.pipeline
        },
{
    if draws && texture.dmabuf_imported {
        frame_blits::law_frames_remember_what_they_use(old(frame)@, texture.image, true, texture.image);
    }
}

/// Finishing a frame ends rendering, gives back what was taken over and the target with it, and
/// hands over what the frame used. A frame is finished once; a second time does nothing.
pub proof fn law_finish(
    frame: &mut VulkanFrame,
    target: &mut VulkanTarget,
    queue_family: u32,
    commands: &mut Vec<Command>,
    end: Option<FinishedFrame>,
)
    requires
        call_ensures(VulkanFrame::finish, (frame, target, queue_family, commands), end),
    ensures
        end is None <==> old(frame)@.finished,
        end is None ==> final(commands)@ == old(commands)@ && *final(target) == *old(target),
        final(frame)@.finished,
        end matches Some(end) ==> {
            let n = old(commands)@.len() as int;
            let m = old(frame)@.foreign.len() as int;
            &&& end@.used == old(frame)@.used && end@.foreign == old(frame)@.foreign
            &&& final(commands)@.len() == n + m + 2
            &&& old(commands)@.is_prefix_of(final(commands)@)
            &&& final(commands)@[n] is EndRendering
            &&& final(commands)@.last() matches Command::Barrier(barrier) && barrier.image == old(target).target_image()
            &&& forall|i: int|
                0 <= i < m ==> (final(commands)@[n + 1 + i] matches Command::Barrier(barrier)
                    && barrier.image == #[trigger] old(frame)@.foreign[i])
            &&& final(target).target_image() == old(target).target_image()
            &&& (*final(target)) is Texture ==> final(target).transfer().layout
                == ImageLayout::ShaderReadOnlyOptimal
        },
{
    if end is Some {
        let list = frame::release_commands(old(frame)@.foreign, *old(target), queue_family);
        let n = old(commands)@.len() as int;
        let m = old(frame)@.foreign.len() as int;
        assert(final(commands)@[n] == list[0]);
        assert forall|i: int| 0 <= i < m implies (final(commands)@[n + 1 + i] matches Command::Barrier(
            barrier,
        ) && barrier.image == #[trigger] old(frame)@.foreign[i]) by {
            frame_blits::law_images_are_taken_over_and_given_back(
                old(frame)@.foreign,
                *old(target),
                ImageLayout::General,
                queue_family,
                i,
            );
            assert(final(commands)@[n + 1 + i] == list[1 + i]);
        }
    }
}

/// A copy is planned exactly if its format is known and its region inside of the source. The plan
/// needs a buffer for all of the region's pixels, and a temporary image of the size of the region
/// exactly if the source has another format.
pub proof fn law_plan_copy(
    source: CopySource,
    region: Rectangle,
    format: Fourcc,
    little_endian: bool,
    bytes: usize,
    r: Result<CopyPlan, VulkanError>,
    size: u64,
    request: Option<ImageRequest>,
)
    requires
        call_ensures(CopyPlan::new, (source, region, format, little_endian), r),
        formats::pixel_bytes(format) == Some(bytes),
        0 <= region.size.w * region.size.h * bytes <= u64::MAX,
        r matches Ok(plan) ==> call_ensures(CopyPlan::buffer_size, (&plan,), size),
        r matches Ok(plan) ==> call_ensures(CopyPlan::temp_image, (&plan,), request),
    ensures
        ({
            let known = formats::mapping_of(format, little_endian) is Some;
            let inside = 0 <= region.loc.x && 0 <= region.loc.y && 0 < region.size.w && 0
                < region.size.h && region.loc.x + region.size.w <= source.size.w && region.loc.y
                + region.size.h <= source.size.h;
            &&& r is Ok <==> known && inside
            &&& !known ==> r == Err::<CopyPlan, VulkanError>(VulkanError::UnsupportedFormat(format))
            &&& known && !inside ==> r == Err::<CopyPlan, VulkanError>(VulkanError::OutOfBounds)
            &&& r matches Ok(plan) ==> {
                &&& size == region.size.w * region.size.h * bytes
                &&& request is Some <==> formats::mapping_of(format, little_endian)->0.vk
                    != source.vk_format
                &&& request matches Some(image) ==> image.size == region.size && Some(image.mapping)
                    == formats::mapping_of(format, little_endian)
                &&& plan@.region == region && plan@.source == source && plan@.format == format
            }
        }),
{
    transfer::law_when_a_copy_is_refused(source, region, format, little_endian);
    if formats::mapping_of(format, little_endian) is Some {
        transfer::law_copy_plan_is_what_was_asked_for(source, region, format, little_endian, bytes);
    }
}

/// What a copy submits reads the planned region of the source, at its location, and writes it to
/// the buffer that was made for it: directly, or through the temporary image, which is destroyed
/// afterwards. It waits for the source, and is waited for, exactly if the source is fenced.
pub proof fn law_submit_copy(
    plan: &CopyPlan,
    buffer: OwnedBuffer,
    temp: Option<OwnedImage>,
    queue_family: u32,
    submission: Submission,
)
    requires
        call_ensures(CopyPlan::submission, (plan, buffer, temp, queue_family), submission),
        plan@.region.is_bounded(),
    ensures
        ({
            let list = submission.commands@;
            let from = plan@.region.loc;
            let size = plan@.region.size;
            &&& forall|i: int|
                0 <= i < list.len() ==> match #[trigger] list[i] {
                    Command::CopyImageToBuffer { image, buffer: b, region, .. } => {
                        &&& b == buffer.buffer
                        &&& region.size == size
                        &&& temp is None ==> image == plan@.source.image && region.loc == from
                        &&& temp matches Some(temp) ==> image == temp.image && region.loc.x == 0
                            && region.loc.y == 0
                    },
                    Command::Blit { src_image, src_from, src_to, dst_image, dst_from, dst_to, .. } => {
                        &&& src_image == plan@.source.image
                        &&& temp matches Some(temp) && dst_image == temp.image
                        &&& src_from == from && src_to.x == from.x + size.w && src_to.y == from.y
                            + size.h
                        &&& dst_from.x == 0 && dst_from.y == 0 && dst_to.x == size.w && dst_to.y
                            == size.h
                    },
                    Command::Barrier(_) => true,
                    _ => false,
                }
            &&& exists|k: int| 0 <= k < list.len() && #[trigger] list[k] is CopyImageToBuffer
            &&& temp is Some ==> exists|k: int| 0 <= k < list.len() && #[trigger] list[k] is Blit
            &&& temp is None ==> submission.cleanup@.len() == 0
            &&& temp matches Some(temp) ==> submission.cleanup@.contains(CleanupItem::Image(temp.image))
                && submission.cleanup@.contains(CleanupItem::Memory(temp.memory))
            &&& submission.acquire_source == plan@.source.fenced
            &&& submission.with_export == plan@.source.fenced
        }),
{
    let image = match temp {
        Some(temp) => Some(temp.image),
        None => None,
    };
    transfer::law_copy_reads_the_planned_region(plan@, buffer.buffer, image, queue_family);
    let list = submission.commands@;
    assert(list == plan@.commands(buffer.buffer, image, queue_family));
    let k = choose|k: int|
        {
            &&& 0 <= k < list.len() && #[trigger] list[k] is CopyImageToBuffer
            &&& forall|i: int|
                0 <= i < list.len() && #[trigger] list[i] is CopyImageToBuffer ==> i == k
            &&& image is Some ==> exists|i: int| 0 <= i < k && #[trigger] list[i] is Blit
        };
    assert(list[k] is CopyImageToBuffer);
    if temp is Some {
        let i = choose|i: int| 0 <= i < k && #[trigger] list[i] is Blit;
        assert(list[i] is Blit);
        assert(submission.cleanup@[0] == CleanupItem::Image(temp->0.image));
        assert(submission.cleanup@[1] == CleanupItem::Memory(temp->0.memory));
    }
}

/// A blit between two images is refused if they are one, or if a region is not inside of its image;
/// otherwise it copies the one region into the other, in that direction.
pub proof fn law_blit(
    from: &VulkanTarget,
    to: &VulkanTarget,
    src: Rectangle,
    dst: Rectangle,
    filter: TextureFilter,
    queue_family: u32,
    r: Result<Vec<Command>, VulkanError>,
)
    requires
        call_ensures(transfer::blit, (from, to, src, dst, filter, queue_family), r),
        src.is_bounded(),
        dst.is_bounded(),
    ensures
        ({
            let same = from.target_image() == to.target_image();
            let src_fits = 0 <= src.loc.x && 0 <= src.loc.y && src.loc.x + src.size.w
                <= from.target_size().w && src.loc.y + src.size.h <= from.target_size().h;
            let dst_fits = 0 <= dst.loc.x && 0 <= dst.loc.y && dst.loc.x + dst.size.w
                <= to.target_size().w && dst.loc.y + dst.size.h <= to.target_size().h;
            &&& same ==> r == Err::<Vec<Command>, VulkanError>(VulkanError::BlitSameImage)
            &&& !same && !(src_fits && dst_fits) ==> r == Err::<Vec<Command>, VulkanError>(
                VulkanError::OutOfBounds,
            )
            &&& !same && src_fits && dst_fits ==> r is Ok
            &&& r matches Ok(list) ==> list@.len() >= 3 && (list@[2] matches Command::Blit {
                src_image,
                src_from,
                src_to,
                dst_image,
                dst_from,
                dst_to,
                filter: f,
                ..
            } && {
                &&& src_image == from.target_image() && dst_image == to.target_image() && f == filter
                &&& src_from == src.loc && dst_from == dst.loc
                &&& src_to.x == src.loc.x + src.size.w && src_to.y == src.loc.y + src.size.h
                &&& dst_to.x == dst.loc.x + dst.size.w && dst_to.y == dst.loc.y + dst.size.h
            })
        }),
{
    transfer::law_when_a_blit_is_refused(*from, *to, src, dst);
    transfer::law_blit_copies_the_region(
        from.target_image(),
        from.transfer(),
        src,
        to.target_image(),
        to.transfer(),
        dst,
        filter,
        queue_family,
    );
}

/// After a blit both images count as used until its point. The fences of the images are waited for,
/// each on its own account, and a new one is made exactly if one of them has one and it can be
/// exported.
pub proof fn law_after_a_blit(
    from: &mut VulkanTarget,
    to: &mut VulkanTarget,
    point: u64,
    source_fenced: bool,
    destination_fenced: bool,
    exportable: bool,
    fences: BlitFences,
)
    requires
        call_ensures(transfer::blit_submitted, (from, to, point), ()),
        call_ensures(
            transfer::blit_fences,
            (source_fenced, destination_fenced, exportable),
            fences,
        ),
    ensures
        final(from).used_until() >= point && final(to).used_until() >= point,
        final(from).target_image() == old(from).target_image(),
        final(to).target_image() == old(to).target_image(),
        final(from).transfer() == old(from).transfer(),
        final(to).transfer().layout == old(to).transfer().afterwards(true),
        fences.acquire_source == source_fenced,
        fences.acquire_destination == destination_fenced,
        fences.release <==> exportable && (source_fenced || destination_fenced),
{
}

/// An upload writes its staging buffer to exactly the region of the texture that its bytes are
/// those of.
pub proof fn law_commands_of_an_upload(plan: &UploadPlan, buffer: u64, list: Vec<Command>)
    requires
        call_ensures(UploadPlan::commands, (plan, buffer), list),
    ensures
        list@.len() == 3,
        list@[0] matches Command::Barrier(barrier) && barrier.image == plan.image,
        list@[1] matches Command::CopyBufferToImage { buffer: from, image, region, .. } && from == buffer
            && image == plan.image && region.loc == plan.region.loc && region.size
            == plan.region.size,
        list@[2] matches Command::Barrier(barrier) && barrier.image == plan.image
            && barrier.new_layout == ImageLayout::ShaderReadOnlyOptimal,
{
    upload::law_upload_writes_the_region(buffer, plan.image, plan.region, plan.old_layout);
}

/// What is uploaded for a region is that region of the data, byte by byte, and it goes to that
/// region of that texture. A first upload takes over nothing of what the texture held.
pub proof fn law_upload_memory(
    texture: &VulkanTexture,
    data: &[u8],
    stride: i32,
    region: Rectangle,
    first_upload: bool,
    bytes: usize,
    r: Result<UploadPlan, VulkanError>,
    row: int,
    k: int,
)
    requires
        call_ensures(upload_memory, (texture, data, stride, region, first_upload), r),
        formats::pixel_bytes(texture.format) == Some(bytes),
        upload::holds_region(data@.len() as int, region, stride as int, bytes as int),
        0 <= row < region.size.h,
        0 <= k < region.size.w * bytes,
    ensures
        r matches Ok(plan) && {
            &&& plan.image == texture.image
            &&& plan.region == region
            &&& plan.bytes@.len() == region.size.h * (region.size.w * bytes)
            &&& plan.bytes@[row * (region.size.w * bytes) + k] == data@[((region.loc.y + row) * stride
                + region.loc.x) * bytes + k]
            &&& first_upload ==> plan.old_layout == ImageLayout::Undefined
            &&& !first_upload ==> plan.old_layout == texture.layout
        },
{
    upload::law_packed_bytes_are_those_of_the_region(
        data@,
        region,
        stride as int,
        bytes as int,
        region.size.h as int,
        row,
        k,
    );
}

/// An update is accepted exactly if the texture can be written, the region is inside of it, and
/// the data holds all of the texture. It then uploads that region of the data.
pub proof fn law_update_memory(
    texture: &VulkanTexture,
    data: &[u8],
    region: Rectangle,
    bytes: usize,
    r: Result<UploadPlan, VulkanError>,
    row: int,
    k: int,
)
    requires
        call_ensures(update_memory, (texture, data, region), r),
        formats::pixel_bytes(texture.format) == Some(bytes),
    ensures
        ({
            let inside = 0 <= region.loc.x && 0 <= region.loc.y && 0 < region.size.w && 0
                < region.size.h && region.loc.x + region.size.w <= texture.size.w && region.loc.y
                + region.size.h <= texture.size.h;
            let fits = texture.size.w * texture.size.h * bytes <= data@.len();
            &&& r is Ok <==> texture.writable && inside && fits
            &&& !texture.writable ==> r == Err::<UploadPlan, VulkanError>(VulkanError::NotWritable)
            &&& texture.writable && !inside ==> r == Err::<UploadPlan, VulkanError>(
                VulkanError::OutOfBounds,
            )
            &&& texture.writable && inside && !fits ==> r == Err::<UploadPlan, VulkanError>(
                VulkanError::UnexpectedSize,
            )
            &&& r matches Ok(plan) ==> plan.image == texture.image && plan.region == region
                && plan.old_layout == texture.layout
            &&& r is Ok && upload::holds_region(
                data@.len() as int,
                region,
                texture.size.w as int,
                bytes as int,
            ) && 0 <= row < region.size.h && 0 <= k < region.size.w * bytes ==> {
                let plan = r->Ok_0;
                &&& plan.bytes@.len() == region.size.h * (region.size.w * bytes)
                &&& plan.bytes@[row * (region.size.w * bytes) + k] == data@[((region.loc.y + row)
                    * texture.size.w + region.loc.x) * bytes + k]
            }
        }),
{
    upload::law_when_an_update_is_refused(*texture, data@.len() as int, region, bytes);
    if r is Ok && upload::holds_region(
        data@.len() as int,
        region,
        texture.size.w as int,
        bytes as int,
    ) && 0 <= row < region.size.h && 0 <= k < region.size.w * bytes {
        upload::law_packed_bytes_are_those_of_the_region(
            data@,
            region,
            texture.size.w as int,
            bytes as int,
            region.size.h as int,
            row,
            k,
        );
    }
}

} // verus!
