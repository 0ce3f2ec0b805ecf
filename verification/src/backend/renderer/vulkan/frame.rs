//! Frames: drawing into a target.
//!
//! A frame is recorded while textures are drawn. Which images it takes over from others is only
//! known in the end, so that the barriers for this go into commands of their own, which are
//! executed before the frame.

use vstd::prelude::*;

use crate::backend::renderer::geometry::{Point, Rectangle, Size, Transform};
use crate::backend::renderer::region;
use crate::backend::renderer::vulkan::color_params;
use crate::backend::renderer::vulkan::color_params::{effective_params, ColorBlendParams};
use crate::backend::renderer::vulkan::commands;
use crate::backend::renderer::vulkan::commands::{
    blit_regions, foreign_barrier, image_barrier, transfer_prepare, transfer_restore, Command, Fill,
    ImageBarrier, ImageLayout, TextureFilter, ACCESS_COLOR_ATTACHMENT,
    ACCESS_COLOR_ATTACHMENT_WRITE, ACCESS_MEMORY, ACCESS_SHADER_READ, ACCESS_TRANSFER,
    ACCESS_TRANSFER_READ, ACCESS_TRANSFER_WRITE, STAGE_ALL_COMMANDS,
    STAGE_COLOR_ATTACHMENT_OUTPUT, STAGE_FRAGMENT_SHADER, STAGE_TRANSFER,
};
use crate::backend::renderer::vulkan::draw;
use crate::backend::renderer::vulkan::draw::{draw_rects, split_damage, FULL_ALPHA};
use crate::backend::renderer::vulkan::device;
use crate::backend::renderer::vulkan::device::CleanupQueue;
use crate::backend::renderer::vulkan::error::VulkanError;
use crate::backend::renderer::vulkan::fence::{BinarySemaphore, VulkanFence};
use crate::backend::renderer::vulkan::formats::VkFormat;
use crate::backend::renderer::vulkan::pipelines::{PipelineCache, PipelineKey};
use crate::backend::renderer::vulkan::queue;
use crate::backend::renderer::vulkan::queue::{
    Flight, QueueSubmit, Submissions, SubmissionsModel, SubmitModel,
};
use crate::backend::renderer::vulkan::texture::{RenderBuffer, VulkanTarget, VulkanTexture};

verus! {

/// A frame that is being recorded.
#[derive(Debug)]
pub struct VulkanFrame {
    transform: Transform,
    size: Size,
    /// Target size in buffer coordinates, before the transform.
    buffer_size: Size,
    /// Images of imported textures used in this frame, which are taken over from others for it.
    foreign_textures: Vec<u64>,
    /// All images used in this frame, besides the target.
    used_textures: Vec<u64>,
    bound_pipeline: Option<u64>,
    /// Layout of an offscreen target before this frame started.
    target_initial_layout: ImageLayout,
    finished: bool,
}

/// The contents of a [`VulkanFrame`].
#[verifier::ext_equal]
pub struct FrameModel {
    pub transform: Transform,
    pub size: Size,
    pub buffer_size: Size,
    pub foreign: Seq<u64>,
    pub used: Seq<u64>,
    pub pipeline: Option<u64>,
    pub initial_layout: ImageLayout,
    pub finished: bool,
}

/// Whether the pipelines for a format exist.
pub open spec fn has_pipelines(pipelines: &PipelineCache, format: VkFormat) -> bool {
    forall|solid: bool, blend: bool| #[trigger]
        pipelines.pipeline(PipelineKey::BuiltIn { format, solid, blend }) is Some
}

/// The pipelines that a frame needs. They are created before it starts.
pub fn needed_pipelines(format: VkFormat) -> (keys: Vec<PipelineKey>)
    ensures
        keys@ == seq![
            PipelineKey::BuiltIn { format, solid: false, blend: false },
            PipelineKey::BuiltIn { format, solid: false, blend: true },
            PipelineKey::BuiltIn { format, solid: true, blend: false },
            PipelineKey::BuiltIn { format, solid: true, blend: true },
        ],
{
    let mut keys: Vec<PipelineKey> = Vec::new();
    keys.push(PipelineKey::BuiltIn { format, solid: false, blend: false });
    keys.push(PipelineKey::BuiltIn { format, solid: false, blend: true });
    keys.push(PipelineKey::BuiltIn { format, solid: true, blend: false });
    keys.push(PipelineKey::BuiltIn { format, solid: true, blend: true });
    keys
}

/// Rendering into a target starts.
pub open spec fn begin_command(target: VulkanTarget, size: Size) -> Command {
    Command::BeginRendering {
        image: target.target_image(),
        layout: target.layout_while_rendering(),
        size,
    }
}

fn begin_rendering(commands: &mut Vec<Command>, target: &VulkanTarget, size: Size)
    ensures
        final(commands)@ == old(commands)@.push(begin_command(*target, size)),
{
    commands.push(
        Command::BeginRendering { image: target.image(), layout: target.render_layout(), size },
    );
}

/// The commands that bind a pipeline, unless it is bound already.
pub open spec fn bind_commands(bound: Option<u64>, pipeline: u64) -> Seq<Command> {
    if bound == Some(pipeline) {
        Seq::empty()
    } else {
        seq![Command::BindPipeline(pipeline)]
    }
}

/// The pipeline for a draw.
pub open spec fn pipeline_of(
    pipelines: &PipelineCache,
    target: VulkanTarget,
    solid: bool,
    blend: bool,
) -> u64 {
    pipelines.pipeline(PipelineKey::BuiltIn { format: target.target_format(), solid, blend })->0
}

/// The commands that fill rectangles with a color.
pub open spec fn solid_commands(
    bound: Option<u64>,
    pipeline: u64,
    dest: Rectangle,
    damage: Seq<Rectangle>,
    color: [u32; 4],
) -> Seq<Command> {
    if damage.len() == 0 {
        Seq::empty()
    } else {
        bind_commands(bound, pipeline) + draw::draws(
            damage,
            dest.size,
            dest.loc,
            Fill::Color(color),
        )
    }
}

/// The commands that draw a texture into rectangles with one pipeline.
pub open spec fn textured_commands(
    bound: Option<u64>,
    pipeline: u64,
    set: u64,
    image: u64,
    params: Option<ColorBlendParams>,
    fill: Fill,
    dest: Rectangle,
    damage: Seq<Rectangle>,
) -> Seq<Command> {
    if damage.len() == 0 {
        Seq::empty()
    } else {
        bind_commands(bound, pipeline) + seq![Command::BindTexture { set, image, params }]
            + draw::draws(damage, dest.size, Point { x: 0, y: 0 }, fill)
    }
}

/// The commands that draw a texture, with and without blending.
pub open spec fn texture_commands(
    bound: Option<u64>,
    blending: u64,
    replacing: u64,
    set: u64,
    image: u64,
    params: Option<ColorBlendParams>,
    fill: Fill,
    dest: Rectangle,
    blended: Seq<Rectangle>,
    opaque: Seq<Rectangle>,
) -> Seq<Command> {
    textured_commands(bound, blending, set, image, params, fill, dest, blended) + textured_commands(
        bound_after(bound, blending, blended),
        replacing,
        set,
        image,
        params,
        fill,
        dest,
        opaque,
    )
}

/// The pipeline that is bound after a draw with the given damage.
pub open spec fn bound_after(bound: Option<u64>, pipeline: u64, damage: Seq<Rectangle>) -> Option<
    u64,
> {
    if damage.len() == 0 {
        bound
    } else {
        Some(pipeline)
    }
}

/// The images with one more, unless it is among them already.
pub open spec fn with_image(images: Seq<u64>, image: u64) -> Seq<u64> {
    if images.contains(image) {
        images
    } else {
        images.push(image)
    }
}

impl FrameModel {
    /// The frame once a texture is used in it: an imported one is taken over.
    pub open spec fn using(self, image: u64, imported: bool) -> FrameModel {
        FrameModel {
            foreign: if imported {
                with_image(self.foreign, image)
            } else {
                self.foreign
            },
            used: self.used.push(image),
            ..self
        }
    }

    /// The frame after a blit between its target and another image. The pipeline has to be
    /// bound anew.
    pub open spec fn blitted(self, image: u64) -> FrameModel {
        FrameModel { used: self.used.push(image), pipeline: None, ..self }
    }
}

impl VulkanFrame {
    pub closed spec fn view(&self) -> FrameModel {
        FrameModel {
            transform: self.transform,
            size: self.size,
            buffer_size: self.buffer_size,
            foreign: self.foreign_textures@,
            used: self.used_textures@,
            pipeline: self.bound_pipeline,
            initial_layout: self.target_initial_layout,
            finished: self.finished,
        }
    }

    /// Starts a frame.
    pub fn new(
        target: &VulkanTarget,
        output_size: Size,
        transform: Transform,
        commands: &mut Vec<Command>,
    ) -> (frame: Self)
        ensures
            final(commands)@ == old(commands)@ + seq![
                Command::SetArea(output_size),
                begin_command(*target, output_size),
            ],
            frame@ == (FrameModel {
                transform,
                size: transform.sized(output_size),
                buffer_size: output_size,
                foreign: Seq::empty(),
                used: Seq::empty(),
                pipeline: None,
                initial_layout: target.transfer().layout,
                finished: false,
            }),
    {
        let ghost before = commands@;
        commands.push(Command::SetArea(output_size));
        begin_rendering(commands, target, output_size);
        assert(commands@ =~= before + seq![
            Command::SetArea(output_size),
            begin_command(*target, output_size),
        ]);
        VulkanFrame {
            transform,
            size: transform.transform_size(output_size),
            buffer_size: output_size,
            foreign_textures: Vec::new(),
            used_textures: Vec::new(),
            bound_pipeline: None,
            target_initial_layout: target.transfer_state().layout,
            finished: false,
        }
    }

    /// The transformation of the output.
    pub fn transformation(&self) -> (transform: Transform)
        ensures
            transform == self@.transform,
    {
        self.transform
    }

    /// The size of the output.
    pub fn output_size(&self) -> (size: Size)
        ensures
            size == self@.size,
    {
        self.size
    }

    fn bind_pipeline(&mut self, pipeline: u64, commands: &mut Vec<Command>)
        ensures
            final(commands)@ == old(commands)@ + bind_commands(old(self)@.pipeline, pipeline),
            final(self)@ == (FrameModel { pipeline: Some(pipeline), ..old(self)@ }),
    {
        let is_bound = match self.bound_pipeline {
            Some(bound) => bound == pipeline,
            None => false,
        };
        let ghost before = commands@;
        if !is_bound {
            commands.push(Command::BindPipeline(pipeline));
            self.bound_pipeline = Some(pipeline);
        }
        assert(commands@ =~= before + bind_commands(old(self)@.pipeline, pipeline));
    }

    fn draw_solid_internal(
        &mut self,
        target: &VulkanTarget,
        pipelines: &PipelineCache,
        dest: Rectangle,
        damage: &Vec<Rectangle>,
        color: [u32; 4],
        blend: bool,
        commands: &mut Vec<Command>,
    )
        requires
            region::is_regular(dest),
            has_pipelines(pipelines, target.target_format()),
        ensures
            final(commands)@ == old(commands)@ + solid_commands(
                old(self)@.pipeline,
                pipeline_of(pipelines, *target, true, blend),
                dest,
                damage@,
                color,
            ),
            final(self)@ == (FrameModel {
                pipeline: bound_after(
                    old(self)@.pipeline,
                    pipeline_of(pipelines, *target, true, blend),
                    damage@,
                ),
                ..old(self)@
            }),
    {
        let ghost before = commands@;
        if damage.len() == 0 {
            assert(before + Seq::<Command>::empty() =~= before);
            return;
        }
        let format = target.vk_format();
        if let Some(pipeline) = pipelines.get(PipelineKey::BuiltIn { format, solid: true, blend }) {
            self.bind_pipeline(pipeline, commands);
            draw_rects(commands, damage, dest.size, dest.loc, Fill::Color(color));
            assert(commands@ =~= before + solid_commands(
                old(self)@.pipeline,
                pipeline,
                dest,
                damage@,
                color,
            ));
        }
    }

    /// Clears parts of the output: they are filled with a color, given by the bits of its
    /// components, without blending.
    pub fn clear(
        &mut self,
        target: &VulkanTarget,
        pipelines: &PipelineCache,
        at: &Vec<Rectangle>,
        color: [u32; 4],
        commands: &mut Vec<Command>,
    )
        requires
            old(self)@.size.w >= 0,
            old(self)@.size.h >= 0,
            has_pipelines(pipelines, target.target_format()),
        ensures
            final(commands)@ == old(commands)@ + solid_commands(
                old(self)@.pipeline,
                pipeline_of(pipelines, *target, true, false),
                Rectangle { loc: Point { x: 0, y: 0 }, size: old(self)@.size },
                at@,
                color,
            ),
            final(self)@ == (FrameModel {
                pipeline: bound_after(
                    old(self)@.pipeline,
                    pipeline_of(pipelines, *target, true, false),
                    at@,
                ),
                ..old(self)@
            }),
    {
        let area = Rectangle::from_size(self.size);
        self.draw_solid_internal(target, pipelines, area, at, color, false, commands);
    }

    /// Fills parts of a rectangle with a color, given by the bits of its components. Only an
    /// opaque color needs no blending.
    pub fn draw_solid(
        &mut self,
        target: &VulkanTarget,
        pipelines: &PipelineCache,
        dst: Rectangle,
        damage: &Vec<Rectangle>,
        color: [u32; 4],
        commands: &mut Vec<Command>,
    )
        requires
            region::is_regular(dst),
            has_pipelines(pipelines, target.target_format()),
        ensures
            final(commands)@ == old(commands)@ + solid_commands(
                old(self)@.pipeline,
                pipeline_of(pipelines, *target, true, color@[3] != FULL_ALPHA),
                dst,
                damage@,
                color,
            ),
            final(self)@ == (FrameModel {
                pipeline: bound_after(
                    old(self)@.pipeline,
                    pipeline_of(pipelines, *target, true, color@[3] != FULL_ALPHA),
                    damage@,
                ),
                ..old(self)@
            }),
    {
        let blend: bool = color[3] != FULL_ALPHA;
        self.draw_solid_internal(target, pipelines, dst, damage, color, blend, commands);
    }

    /// Takes note that a texture is drawn in this frame. Nothing is drawn, and the texture not
    /// used, without damage or if the texture or its part that is drawn is empty.
    pub fn use_texture(&mut self, texture: &VulkanTexture, src_empty: bool, damage: &Vec<Rectangle>) -> (draws:
        bool)
        ensures
            draws <==> damage@.len() > 0 && !src_empty && texture.size.w != 0 && texture.size.h
                != 0,
            final(self)@ == if draws {
                old(self)@.using(texture.image, texture.dmabuf_imported)
            } else {
                old(self)@
            },
    {
        if damage.len() == 0 {
            return false;
        }
        if src_empty || texture.size.w == 0 || texture.size.h == 0 {
            return false;
        }
        if texture.dmabuf_imported && !holds_image(&self.foreign_textures, texture.image) {
            self.foreign_textures.push(texture.image);
        }
        self.used_textures.push(texture.image);
        true
    }

    fn draw_textured(
        &mut self,
        pipeline: Option<u64>,
        set: u64,
        image: u64,
        params: Option<ColorBlendParams>,
        fill: Fill,
        dest: Rectangle,
        damage: &Vec<Rectangle>,
        commands: &mut Vec<Command>,
    )
        requires
            pipeline is Some,
            region::is_regular(dest),
        ensures
            final(commands)@ == old(commands)@ + textured_commands(
                old(self)@.pipeline,
                pipeline->0,
                set,
                image,
                params,
                fill,
                dest,
                damage@,
            ),
            final(self)@ == (FrameModel {
                pipeline: bound_after(old(self)@.pipeline, pipeline->0, damage@),
                ..old(self)@
            }),
    {
        let ghost before = commands@;
        if damage.len() == 0 {
            assert(before + Seq::<Command>::empty() =~= before);
            return;
        }
        if let Some(pipeline) = pipeline {
            self.bind_pipeline(pipeline, commands);
            commands.push(Command::BindTexture { set, image, params });
            draw_rects(commands, damage, dest.size, Point { x: 0, y: 0 }, fill);
            assert(commands@ =~= before + textured_commands(
                old(self)@.pipeline,
                pipeline,
                set,
                image,
                params,
                fill,
                dest,
                damage@,
            ));
        }
    }

    /// Draws a texture that the frame uses through its descriptor set: first where it is blended
    /// with what is there, then where it is not. It is drawn with its own color parameters, or
    /// the default ones, and can be tinted for debugging.
    pub fn render_texture(
        &mut self,
        target: &VulkanTarget,
        pipelines: &PipelineCache,
        texture: &VulkanTexture,
        set: u64,
        own_params: Option<ColorBlendParams>,
        default_params: Option<ColorBlendParams>,
        dest: Rectangle,
        damage: &Vec<Rectangle>,
        opaque_regions: &Vec<Rectangle>,
        alpha: u32,
        tinted: bool,
        commands: &mut Vec<Command>,
    )
        requires
            region::is_regular(dest),
            region::are_regular(damage@),
            old(self)@.used.contains(texture.image),
            has_pipelines(pipelines, target.target_format()),
        ensures
            exists|blended: Seq<Rectangle>, opaque: Seq<Rectangle>|
                {
                    &&& #[trigger] draw::is_split(
                        damage@,
                        opaque_regions@,
                        texture.has_alpha,
                        alpha,
                        blended,
                        opaque,
                    )
                    &&& final(commands)@ == old(commands)@ + texture_commands(
                        old(self)@.pipeline,
                        pipeline_of(pipelines, *target, false, true),
                        pipeline_of(pipelines, *target, false, false),
                        set,
                        texture.image,
                        color_params::in_effect(own_params, default_params),
                        Fill::Texture { alpha, tinted },
                        dest,
                        blended,
                        opaque,
                    )
                    &&& final(self)@ == (FrameModel {
                        pipeline: bound_after(
                            bound_after(
                                old(self)@.pipeline,
                                pipeline_of(pipelines, *target, false, true),
                                blended,
                            ),
                            pipeline_of(pipelines, *target, false, false),
                            opaque,
                        ),
                        ..old(self)@
                    })
                },
    {
        let ghost before = commands@;
        let split = split_damage(damage, opaque_regions, texture.has_alpha, alpha);
        let format = target.vk_format();
        let params = effective_params(own_params, default_params);
        let fill = Fill::Texture { alpha, tinted };
        let blending = pipelines.get(PipelineKey::BuiltIn { format, solid: false, blend: true });
        let opaque = pipelines.get(PipelineKey::BuiltIn { format, solid: false, blend: false });
        self.draw_textured(blending, set, texture.image, params, fill, dest, &split.blended, commands);
        self.draw_textured(opaque, set, texture.image, params, fill, dest, &split.opaque, commands);
        proof {
            assert(draw::is_split(
                damage@,
                opaque_regions@,
                texture.has_alpha,
                alpha,
                split.blended@,
                split.opaque@,
            ));
            assert(commands@ =~= before + texture_commands(
                old(self)@.pipeline,
                blending->0,
                opaque->0,
                set,
                texture.image,
                params,
                fill,
                dest,
                split.blended@,
                split.opaque@,
            ));
        }
    }
}

/// The layout of the target of a frame while it takes part in a blit.
pub open spec fn bound_transfer_layout(target: VulkanTarget, write: bool) -> ImageLayout {
    if target.layout_while_rendering() == ImageLayout::General {
        ImageLayout::General
    } else if write {
        ImageLayout::TransferDstOptimal
    } else {
        ImageLayout::TransferSrcOptimal
    }
}

/// The barrier after which the target of a frame can take part in a blit. It was taken over for
/// the frame already, so that at most its layout changes.
pub open spec fn bound_prepare_barrier(target: VulkanTarget, write: bool) -> ImageBarrier {
    ImageBarrier {
        image: target.target_image(),
        old_layout: target.layout_while_rendering(),
        new_layout: bound_transfer_layout(target, write),
        src_stage: STAGE_COLOR_ATTACHMENT_OUTPUT,
        src_access: ACCESS_COLOR_ATTACHMENT,
        dst_stage: STAGE_TRANSFER,
        dst_access: if target.layout_while_rendering() == ImageLayout::General {
            ACCESS_TRANSFER
        } else {
            commands::transfer_access(write)
        },
        src_family: 0,
        dst_family: 0,
    }
}

/// The barrier after which the target of a frame can be rendered into again.
pub open spec fn bound_restore_barrier(target: VulkanTarget, write: bool) -> ImageBarrier {
    ImageBarrier {
        image: target.target_image(),
        old_layout: bound_transfer_layout(target, write),
        new_layout: target.layout_while_rendering(),
        src_stage: STAGE_TRANSFER,
        src_access: ACCESS_TRANSFER,
        dst_stage: STAGE_COLOR_ATTACHMENT_OUTPUT,
        dst_access: ACCESS_COLOR_ATTACHMENT,
        src_family: 0,
        dst_family: 0,
    }
}

/// The blit between the target of a frame and another one.
pub open spec fn frame_blit_command(
    target: VulkanTarget,
    other: VulkanTarget,
    src: Rectangle,
    dst: Rectangle,
    filter: TextureFilter,
    to_other: bool,
) -> Command {
    if to_other {
        commands::blit_command(
            target.target_image(),
            bound_transfer_layout(target, false),
            src,
            other.target_image(),
            other.transfer().during(true),
            dst,
            filter,
        )
    } else {
        commands::blit_command(
            other.target_image(),
            other.transfer().during(false),
            src,
            target.target_image(),
            bound_transfer_layout(target, true),
            dst,
            filter,
        )
    }
}

/// The commands of a blit within a frame. Rendering is suspended for it.
pub open spec fn frame_blit_commands(
    target: VulkanTarget,
    other: VulkanTarget,
    src: Rectangle,
    dst: Rectangle,
    filter: TextureFilter,
    to_other: bool,
    size: Size,
    queue_family: u32,
) -> Seq<Command> {
    let transfer = seq![
        Command::EndRendering,
        Command::Barrier(bound_prepare_barrier(target, !to_other)),
        Command::Barrier(
            commands::prepare_barrier(
                queue_family,
                other.target_image(),
                other.transfer(),
                to_other,
            ),
        ),
        frame_blit_command(target, other, src, dst, filter, to_other),
        Command::Barrier(bound_restore_barrier(target, !to_other)),
    ];
    commands::with_barrier(
        transfer,
        commands::restore_barrier(queue_family, other.target_image(), other.transfer(), to_other),
    ).push(begin_command(target, size)).push(Command::SetArea(size))
}

impl VulkanFrame {
    /// Blits between the target of the frame and another one, to it or from it. Rendering is
    /// suspended for the duration of the transfer.
    ///
    /// The blit completes together with the frame. The returned fence tracks `next_point`, the
    /// point of the timeline that the submission of the frame will signal: the one after the
    /// latest, as nothing else is submitted while the frame is recorded.
    pub fn blit(
        &mut self,
        target: &VulkanTarget,
        other: &mut VulkanTarget,
        src: Rectangle,
        dst: Rectangle,
        filter: TextureFilter,
        to_other: bool,
        queue_family: u32,
        next_point: u64,
        commands: &mut Vec<Command>,
    ) -> (r: Result<VulkanFence, VulkanError>)
        requires
            old(other).target_image() != target.target_image() ==> src.is_bounded() && dst.is_bounded(),
        ensures
            if old(other).target_image() == target.target_image() {
                &&& r == Err::<VulkanFence, VulkanError>(VulkanError::BlitSameImage)
                &&& final(commands)@ == old(commands)@
                &&& final(self)@ == old(self)@
                &&& *final(other) == *old(other)
            } else {
                &&& r == Ok::<VulkanFence, VulkanError>(VulkanFence { point: next_point, binary: None })
                &&& final(commands)@ == old(commands)@ + frame_blit_commands(
                    *target,
                    *old(other),
                    src,
                    dst,
                    filter,
                    to_other,
                    old(self)@.buffer_size,
                    queue_family,
                )
                &&& final(self)@ == old(self)@.blitted(old(other).target_image())
                &&& *final(other) == if to_other {
                    old(other).written()
                } else {
                    *old(other)
                }
            },
    {
        let ghost before = commands@;
        let image: u64 = target.image();
        let other_image: u64 = other.image();
        if other_image == image {
            return Err(VulkanError::BlitSameImage);
        }
        let bound_layout = target.render_layout();
        let other_state = other.transfer_state();
        let bound_write = !to_other;
        let during = if bound_layout == ImageLayout::General {
            ImageLayout::General
        } else if bound_write {
            ImageLayout::TransferDstOptimal
        } else {
            ImageLayout::TransferSrcOptimal
        };
        let access: u64 = if bound_layout == ImageLayout::General {
            ACCESS_TRANSFER
        } else if bound_write {
            ACCESS_TRANSFER_WRITE
        } else {
            ACCESS_TRANSFER_READ
        };
        commands.push(Command::EndRendering);
        commands.push(
            Command::Barrier(
                image_barrier(
                    image,
                    bound_layout,
                    during,
                    STAGE_COLOR_ATTACHMENT_OUTPUT,
                    ACCESS_COLOR_ATTACHMENT,
                    STAGE_TRANSFER,
                    access,
                ),
            ),
        );
        transfer_prepare(commands, queue_family, other_image, &other_state, to_other);
        if to_other {
            commands.push(
                blit_regions(
                    image,
                    during,
                    src,
                    other_image,
                    other_state.transfer_layout(true),
                    dst,
                    filter,
                ),
            );
        } else {
            commands.push(
                blit_regions(
                    other_image,
                    other_state.transfer_layout(false),
                    src,
                    image,
                    during,
                    dst,
                    filter,
                ),
            );
        }
        commands.push(
            Command::Barrier(
                image_barrier(
                    image,
                    during,
                    bound_layout,
                    STAGE_TRANSFER,
                    ACCESS_TRANSFER,
                    STAGE_COLOR_ATTACHMENT_OUTPUT,
                    ACCESS_COLOR_ATTACHMENT,
                ),
            ),
        );
        transfer_restore(commands, queue_family, other_image, &other_state, to_other);
        begin_rendering(commands, target, self.buffer_size);
        self.used_textures.push(other_image);
        self.bound_pipeline = None;
        commands.push(Command::SetArea(self.buffer_size));
        assert(commands@ =~= before + frame_blit_commands(
            *target,
            *other,
            src,
            dst,
            filter,
            to_other,
            self.buffer_size,
            queue_family,
        ));
        if to_other {
            other.mark_written();
        }
        Ok(VulkanFence { point: next_point, binary: None })
    }

    /// Blits from the target of the frame to another one.
    pub fn blit_to(
        &mut self,
        target: &VulkanTarget,
        to: &mut VulkanTarget,
        src: Rectangle,
        dst: Rectangle,
        filter: TextureFilter,
        queue_family: u32,
        next_point: u64,
        commands: &mut Vec<Command>,
    ) -> (r: Result<VulkanFence, VulkanError>)
        requires
            old(to).target_image() != target.target_image() ==> src.is_bounded() && dst.is_bounded(),
        ensures
            if old(to).target_image() == target.target_image() {
                &&& r == Err::<VulkanFence, VulkanError>(VulkanError::BlitSameImage)
                &&& final(commands)@ == old(commands)@
                &&& final(self)@ == old(self)@
                &&& *final(to) == *old(to)
            } else {
                &&& r == Ok::<VulkanFence, VulkanError>(VulkanFence { point: next_point, binary: None })
                &&& final(commands)@ == old(commands)@ + frame_blit_commands(
                    *target,
                    *old(to),
                    src,
                    dst,
                    filter,
                    true,
                    old(self)@.buffer_size,
                    queue_family,
                )
                &&& final(self)@ == old(self)@.blitted(old(to).target_image())
                &&& *final(to) == old(to).written()
            },
    {
        self.blit(target, to, src, dst, filter, true, queue_family, next_point, commands)
    }

    /// Blits from another target to the one of the frame.
    pub fn blit_from(
        &mut self,
        target: &VulkanTarget,
        from: &mut VulkanTarget,
        src: Rectangle,
        dst: Rectangle,
        filter: TextureFilter,
        queue_family: u32,
        next_point: u64,
        commands: &mut Vec<Command>,
    ) -> (r: Result<VulkanFence, VulkanError>)
        requires
            old(from).target_image() != target.target_image() ==> src.is_bounded() && dst.is_bounded(),
        ensures
            if old(from).target_image() == target.target_image() {
                &&& r == Err::<VulkanFence, VulkanError>(VulkanError::BlitSameImage)
                &&& final(commands)@ == old(commands)@
                &&& final(self)@ == old(self)@
            } else {
                &&& r == Ok::<VulkanFence, VulkanError>(VulkanFence { point: next_point, binary: None })
                &&& final(commands)@ == old(commands)@ + frame_blit_commands(
                    *target,
                    *old(from),
                    src,
                    dst,
                    filter,
                    false,
                    old(self)@.buffer_size,
                    queue_family,
                )
                &&& final(self)@ == old(self)@.blitted(old(from).target_image())
            },
            *final(from) == *old(from),
    {
        self.blit(target, from, src, dst, filter, false, queue_family, next_point, commands)
    }
}

/// The barrier with which a frame takes over an imported texture.
pub open spec fn texture_acquire_barrier(image: u64, queue_family: u32) -> ImageBarrier {
    commands::ownership_barrier(
        queue_family,
        true,
        image,
        ImageLayout::General,
        ImageLayout::ShaderReadOnlyOptimal,
        STAGE_FRAGMENT_SHADER,
        ACCESS_SHADER_READ,
    )
}

/// The barrier with which a frame gives an imported texture back.
pub open spec fn texture_release_barrier(image: u64, queue_family: u32) -> ImageBarrier {
    commands::ownership_barrier(
        queue_family,
        false,
        image,
        ImageLayout::ShaderReadOnlyOptimal,
        ImageLayout::General,
        STAGE_FRAGMENT_SHADER,
        ACCESS_SHADER_READ,
    )
}

/// The barrier with which a frame takes over its target. A buffer that is used for the first
/// time keeps the contents that others have written.
pub open spec fn target_acquire_barrier(
    target: VulkanTarget,
    initial_layout: ImageLayout,
    queue_family: u32,
) -> ImageBarrier {
    match target {
        VulkanTarget::Dmabuf(buffer) => commands::ownership_barrier(
            queue_family,
            true,
            buffer.image,
            if buffer.transitioned {
                ImageLayout::General
            } else {
                ImageLayout::Preinitialized
            },
            ImageLayout::General,
            STAGE_COLOR_ATTACHMENT_OUTPUT,
            ACCESS_COLOR_ATTACHMENT,
        ),
        VulkanTarget::Texture(texture) => ImageBarrier {
            image: texture.image,
            old_layout: initial_layout,
            new_layout: ImageLayout::ColorAttachmentOptimal,
            src_stage: STAGE_ALL_COMMANDS,
            src_access: ACCESS_MEMORY,
            dst_stage: STAGE_COLOR_ATTACHMENT_OUTPUT,
            dst_access: ACCESS_COLOR_ATTACHMENT,
            src_family: 0,
            dst_family: 0,
        },
    }
}

/// The barrier with which a frame gives its target back, or makes it readable.
pub open spec fn target_release_barrier(target: VulkanTarget, queue_family: u32) -> ImageBarrier {
    match target {
        VulkanTarget::Dmabuf(buffer) => commands::ownership_barrier(
            queue_family,
            false,
            buffer.image,
            ImageLayout::General,
            ImageLayout::General,
            STAGE_COLOR_ATTACHMENT_OUTPUT,
            ACCESS_COLOR_ATTACHMENT,
        ),
        VulkanTarget::Texture(texture) => ImageBarrier {
            image: texture.image,
            old_layout: ImageLayout::ColorAttachmentOptimal,
            new_layout: ImageLayout::ShaderReadOnlyOptimal,
            src_stage: STAGE_COLOR_ATTACHMENT_OUTPUT,
            src_access: ACCESS_COLOR_ATTACHMENT_WRITE,
            dst_stage: STAGE_FRAGMENT_SHADER,
            dst_access: ACCESS_SHADER_READ,
            src_family: 0,
            dst_family: 0,
        },
    }
}

/// The commands that take over imported textures, or give them back.
pub open spec fn texture_barriers(images: Seq<u64>, acquire: bool, queue_family: u32) -> Seq<Command> {
    images.map_values(
        |image: u64|
            Command::Barrier(
                if acquire {
                    texture_acquire_barrier(image, queue_family)
                } else {
                    texture_release_barrier(image, queue_family)
                },
            ),
    )
}

/// The commands that are executed before a frame.
pub open spec fn acquire_commands(
    images: Seq<u64>,
    target: VulkanTarget,
    initial_layout: ImageLayout,
    queue_family: u32,
) -> Seq<Command> {
    texture_barriers(images, true, queue_family).push(
        Command::Barrier(target_acquire_barrier(target, initial_layout, queue_family)),
    )
}

/// The commands that end a frame.
pub open spec fn release_commands(images: Seq<u64>, target: VulkanTarget, queue_family: u32) -> Seq<
    Command,
> {
    seq![Command::EndRendering] + texture_barriers(images, false, queue_family).push(
        Command::Barrier(target_release_barrier(target, queue_family)),
    )
}

fn push_texture_barriers(
    commands: &mut Vec<Command>,
    images: &Vec<u64>,
    acquire: bool,
    queue_family: u32,
)
    ensures
        final(commands)@ == old(commands)@ + texture_barriers(images@, acquire, queue_family),
{
    let ghost before = commands@;
    let ghost all = texture_barriers(images@, acquire, queue_family);
    let mut i: usize = 0;
    while i < images.len()
        invariant
            i <= images@.len(),
            all == texture_barriers(images@, acquire, queue_family),
            commands@ == before + all.take(i as int),
        decreases images@.len() - i,
    {
        let (from, to) = if acquire {
            (ImageLayout::General, ImageLayout::ShaderReadOnlyOptimal)
        } else {
            (ImageLayout::ShaderReadOnlyOptimal, ImageLayout::General)
        };
        commands.push(
            Command::Barrier(
                foreign_barrier(
                    queue_family,
                    acquire,
                    images[i],
                    from,
                    to,
                    STAGE_FRAGMENT_SHADER,
                    ACCESS_SHADER_READ,
                ),
            ),
        );
        assert(all.take(i + 1) =~= all.take(i as int).push(all[i as int]));
        i = i + 1;
    }
    assert(all.take(i as int) =~= all);
}

impl VulkanTarget {
    /// The target after a frame was recorded: an offscreen texture becomes readable.
    pub open spec fn rendered(self) -> VulkanTarget {
        match self {
            VulkanTarget::Dmabuf(_) => self,
            VulkanTarget::Texture(texture) => VulkanTarget::Texture(
                VulkanTexture { layout: ImageLayout::ShaderReadOnlyOptimal, ..texture },
            ),
        }
    }

    /// The target after it was taken over for a frame: a buffer has been used now.
    pub open spec fn acquired(self) -> VulkanTarget {
        match self {
            VulkanTarget::Dmabuf(buffer) => VulkanTarget::Dmabuf(
                RenderBuffer { transitioned: true, ..buffer },
            ),
            VulkanTarget::Texture(_) => self,
        }
    }
}

/// A frame whose recording has ended. It is submitted once.
#[derive(Debug)]
pub struct FinishedFrame {
    foreign_textures: Vec<u64>,
    used_textures: Vec<u64>,
    target_initial_layout: ImageLayout,
}

/// The contents of a [`FinishedFrame`].
#[verifier::ext_equal]
pub struct FinishedModel {
    pub foreign: Seq<u64>,
    pub used: Seq<u64>,
    pub initial_layout: ImageLayout,
}

/// The submission of a frame that is about to be handed to the queue.
#[derive(Debug)]
pub struct FrameSubmit {
    submit: QueueSubmit,
    used_textures: Vec<u64>,
}

/// The contents of a [`FrameSubmit`].
#[verifier::ext_equal]
pub struct FrameSubmitModel {
    pub submit: SubmitModel,
    pub used: Seq<u64>,
}

/// A frame that was handed to the queue.
#[derive(Debug)]
pub struct SubmittedFrame {
    fence: VulkanFence,
    used_textures: Vec<u64>,
}

/// The contents of a [`SubmittedFrame`].
#[verifier::ext_equal]
pub struct SubmittedModel {
    pub fence: VulkanFence,
    pub used: Seq<u64>,
}

impl FrameModel {
    /// What is to be submitted when the frame is finished: nothing, if it was before.
    pub open spec fn finish(self) -> Option<FinishedModel> {
        if self.finished {
            None
        } else {
            Some(
                FinishedModel {
                    foreign: self.foreign,
                    used: self.used,
                    initial_layout: self.initial_layout,
                },
            )
        }
    }

    /// The frame once it is finished: its images are with what is to be submitted.
    pub open spec fn after_finish(self) -> FrameModel {
        if self.finished {
            self
        } else {
            FrameModel { finished: true, foreign: Seq::empty(), used: Seq::empty(), ..self }
        }
    }
}

impl FinishedModel {
    /// The submission of the frame.
    pub open spec fn submit(
        self,
        submissions: SubmissionsModel,
        acquire_buffer: u64,
        frame_buffer: u64,
        export_semaphore: Option<u64>,
    ) -> FrameSubmitModel {
        FrameSubmitModel {
            submit: submissions.submit(
                seq![acquire_buffer, frame_buffer],
                Seq::empty(),
                Seq::empty(),
                export_semaphore,
            ),
            used: self.used,
        }
    }
}

impl FrameSubmitModel {
    /// The frame once it was handed to the queue.
    pub open spec fn submitted(self) -> SubmittedModel {
        SubmittedModel {
            fence: VulkanFence {
                point: self.submit.point,
                binary: match self.submit.export_semaphore {
                    Some(semaphore) => Some(BinarySemaphore::Unexported(semaphore)),
                    None => None,
                },
            },
            used: self.used,
        }
    }
}

impl SubmittedModel {
    /// An image once it is marked: it is used until the point of the submission if the frame
    /// uses it.
    pub open spec fn marked(self, image: VulkanTarget) -> VulkanTarget {
        if self.used.contains(image.target_image()) {
            image.used(self.fence.point)
        } else {
            image
        }
    }
}

impl VulkanFrame {
    /// Ends the recording of the frame: foreign images are given back, and an offscreen target
    /// becomes readable. Returns what is to be submitted, and nothing if the frame was finished
    /// before.
    pub fn finish(&mut self, target: &mut VulkanTarget, queue_family: u32, commands: &mut Vec<Command>) -> (end:
        Option<FinishedFrame>)
        ensures
            final(self)@ == old(self)@.after_finish(),
            match old(self)@.finish() {
                Some(model) => {
                    &&& end matches Some(end) && end@ == model
                    &&& *final(target) == old(target).rendered()
                    &&& final(commands)@ == old(commands)@ + release_commands(
                        old(self)@.foreign,
                        *old(target),
                        queue_family,
                    )
                },
                None => {
                    &&& end is None
                    &&& *final(target) == *old(target)
                    &&& final(commands)@ == old(commands)@
                },
            },
    {
        if self.finished {
            return None;
        }
        self.finished = true;
        let ghost before = commands@;
        let ghost given = *target;
        commands.push(Command::EndRendering);
        push_texture_barriers(commands, &self.foreign_textures, false, queue_family);
        match target {
            VulkanTarget::Dmabuf(buffer) => {
                commands.push(
                    Command::Barrier(
                        foreign_barrier(
                            queue_family,
                            false,
                            buffer.image,
                            ImageLayout::General,
                            ImageLayout::General,
                            STAGE_COLOR_ATTACHMENT_OUTPUT,
                            ACCESS_COLOR_ATTACHMENT,
                        ),
                    ),
                );
            },
            VulkanTarget::Texture(texture) => {
                commands.push(
                    Command::Barrier(
                        image_barrier(
                            texture.image,
                            ImageLayout::ColorAttachmentOptimal,
                            ImageLayout::ShaderReadOnlyOptimal,
                            STAGE_COLOR_ATTACHMENT_OUTPUT,
                            ACCESS_COLOR_ATTACHMENT_WRITE,
                            STAGE_FRAGMENT_SHADER,
                            ACCESS_SHADER_READ,
                        ),
                    ),
                );
                texture.layout = ImageLayout::ShaderReadOnlyOptimal;
            },
        }
        assert(commands@ =~= before + release_commands(
            self.foreign_textures@,
            given,
            queue_family,
        ));
        let mut end = FinishedFrame {
            foreign_textures: Vec::new(),
            used_textures: Vec::new(),
            target_initial_layout: self.target_initial_layout,
        };
        std::mem::swap(&mut end.foreign_textures, &mut self.foreign_textures);
        std::mem::swap(&mut end.used_textures, &mut self.used_textures);
        Some(end)
    }
}

impl FinishedFrame {
    pub closed spec fn view(&self) -> FinishedModel {
        FinishedModel {
            foreign: self.foreign_textures@,
            used: self.used_textures@,
            initial_layout: self.target_initial_layout,
        }
    }

    /// The commands to execute before the frame: its images are taken over.
    pub fn acquire(&self, target: &mut VulkanTarget, queue_family: u32) -> (commands: Vec<Command>)
        ensures
            *final(target) == old(target).acquired(),
            commands@ == acquire_commands(
                self@.foreign,
                *old(target),
                self@.initial_layout,
                queue_family,
            ),
    {
        let mut commands: Vec<Command> = Vec::new();
        let ghost given = *target;
        push_texture_barriers(&mut commands, &self.foreign_textures, true, queue_family);
        match target {
            VulkanTarget::Dmabuf(buffer) => {
                let old_layout = if buffer.transitioned {
                    ImageLayout::General
                } else {
                    ImageLayout::Preinitialized
                };
                buffer.transitioned = true;
                commands.push(
                    Command::Barrier(
                        foreign_barrier(
                            queue_family,
                            true,
                            buffer.image,
                            old_layout,
                            ImageLayout::General,
                            STAGE_COLOR_ATTACHMENT_OUTPUT,
                            ACCESS_COLOR_ATTACHMENT,
                        ),
                    ),
                );
            },
            VulkanTarget::Texture(texture) => {
                commands.push(
                    Command::Barrier(
                        image_barrier(
                            texture.image,
                            self.target_initial_layout,
                            ImageLayout::ColorAttachmentOptimal,
                            STAGE_ALL_COMMANDS,
                            ACCESS_MEMORY,
                            STAGE_COLOR_ATTACHMENT_OUTPUT,
                            ACCESS_COLOR_ATTACHMENT,
                        ),
                    ),
                );
            },
        }
        assert(commands@ =~= acquire_commands(
            self.foreign_textures@,
            given,
            self.target_initial_layout,
            queue_family,
        ));
        commands
    }

    /// Prepares the one submission of the frame: the buffer with the commands of
    /// [`FinishedFrame::acquire`] is executed before the one of the frame.
    pub fn submit(
        self,
        submissions: &mut Submissions,
        acquire_buffer: u64,
        frame_buffer: u64,
        export_semaphore: Option<u64>,
    ) -> (submit: FrameSubmit)
        requires
            old(submissions).wf(),
            old(submissions)@.point < u64::MAX,
        ensures
            final(submissions).wf(),
            final(submissions)@ == (SubmissionsModel {
                timeline_waits: Seq::empty(),
                binary_waits: Seq::empty(),
                ..old(submissions)@
            }),
            submit@ == self@.submit(
                old(submissions)@,
                acquire_buffer,
                frame_buffer,
                export_semaphore,
            ),
    {
        let mut buffers: Vec<u64> = Vec::new();
        buffers.push(acquire_buffer);
        buffers.push(frame_buffer);
        let none: Vec<u64> = Vec::new();
        assert(buffers@ =~= seq![acquire_buffer, frame_buffer]);
        assert(none@ =~= Seq::<u64>::empty());
        let submit = submissions.submit(buffers, &none, &none, export_semaphore);
        FrameSubmit { submit, used_textures: self.used_textures }
    }
}

impl FrameSubmit {
    pub closed spec fn view(&self) -> FrameSubmitModel {
        FrameSubmitModel { submit: self.submit@, used: self.used_textures@ }
    }

    /// The submission that is handed to the queue.
    pub fn queue_submit(&self) -> (submit: &QueueSubmit)
        ensures
            submit@ == self@.submit,
    {
        &self.submit
    }

    /// Takes note that the frame was handed to the queue: its target is used until the point of
    /// the submission. So are the other images of the frame, which are marked with
    /// [`SubmittedFrame::mark_used`].
    pub fn submitted(
        self,
        target: &mut VulkanTarget,
        submissions: &mut Submissions,
        cleanup: &mut CleanupQueue,
    ) -> (done: SubmittedFrame)
        requires
            old(submissions).wf(),
            self@.submit.point == old(submissions)@.point + 1,
            self@.submit.command_buffers.no_duplicates(),
            forall|b: u64| #[trigger]
                self@.submit.command_buffers.contains(b) ==> !old(submissions)@.free.contains(b)
                    && !old(submissions)@.executes(b),
        ensures
            final(submissions).wf(),
            final(submissions)@ == (SubmissionsModel {
                point: self@.submit.point,
                in_flight: old(submissions)@.in_flight.insert(
                    self@.submit.point,
                    self@.submit.command_buffers,
                ),
                order: old(submissions)@.order.push(
                    Flight {
                        point: self@.submit.point,
                        command_buffers: self@.submit.command_buffers,
                    },
                ),
                ..old(submissions)@
            }),
            final(cleanup)@ == old(cleanup)@ + device::deferred(
                self@.submit.point,
                queue::semaphore_items(self@.submit.binary_waits),
            ),
            *final(target) == old(target).used(self@.submit.point),
            done@ == self@.submitted(),
    {
        let fence = submissions.submitted(self.submit, cleanup);
        target.mark_used(fence.point);
        SubmittedFrame { fence, used_textures: self.used_textures }
    }
}

impl SubmittedFrame {
    pub closed spec fn view(&self) -> SubmittedModel {
        SubmittedModel { fence: self.fence, used: self.used_textures@ }
    }

    /// The fence of the submission.
    pub fn fence(&self) -> (fence: VulkanFence)
        ensures
            fence == self@.fence,
    {
        self.fence
    }

    /// Takes note that an image is used until the point of the submission, if the frame uses it.
    pub fn mark_used(&self, image: &mut VulkanTarget)
        ensures
            *final(image) == self@.marked(*old(image)),
    {
        if holds_image(&self.used_textures, image.image()) {
            image.mark_used(self.fence.point);
        }
    }
}

fn holds_image(images: &Vec<u64>, image: u64) -> (holds: bool)
    ensures
        holds == images@.contains(image),
{
    let mut i: usize = 0;
    while i < images.len()
        invariant
            i <= images@.len(),
            forall|k: int| 0 <= k < i ==> images@[k] != image,
        decreases images@.len() - i,
    {
        if images[i] == image {
            return true;
        }
        i = i + 1;
    }
    false
}

} // verus!
