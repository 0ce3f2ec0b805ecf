//! Transfers between images, and from images to memory.

use vstd::prelude::*;

use crate::backend::renderer::geometry::{Point, Rectangle, Size};
use crate::backend::renderer::vulkan::commands::{
    blit_regions, foreign_barrier, image_barrier, transfer_prepare, transfer_restore, Command,
    ImageBarrier, ImageLayout, ImageState, TextureFilter, TransferState, ACCESS_MEMORY,
    ACCESS_MEMORY_WRITE, ACCESS_NONE, ACCESS_TRANSFER_READ, ACCESS_TRANSFER_WRITE,
    QUEUE_FAMILY_FOREIGN, STAGE_ALL_COMMANDS, STAGE_NONE, STAGE_TRANSFER,
};
use crate::backend::renderer::vulkan::device::CleanupItem;
use crate::backend::renderer::vulkan::error::VulkanError;
use crate::backend::renderer::vulkan::formats::{
    bytes_per_pixel, get_format_mapping, Fourcc, FormatMapping, VkFormat,
};
use crate::backend::renderer::vulkan::texture::{VulkanTarget, VulkanTexture, VulkanTextureMapping};
use crate::backend::renderer::vulkan::{commands, formats};

verus! {

/// An image that is copied to memory.
#[derive(Debug, Clone, Copy, PartialEq, Eq, Structural)]
pub struct CopySource {
    pub image: u64,
    pub vk_format: VkFormat,
    pub layout: ImageLayout,
    /// Whether a foreign queue owns the image.
    pub foreign: bool,
    /// Whether the image is backed by a dmabuf whose implicit fences count.
    pub fenced: bool,
    pub size: Size,
}

/// A buffer with its memory.
#[derive(Debug, Clone, Copy, PartialEq, Eq, Structural)]
pub struct OwnedBuffer {
    pub buffer: u64,
    pub memory: u64,
}

/// An image with its memory.
#[derive(Debug, Clone, Copy, PartialEq, Eq, Structural)]
pub struct OwnedImage {
    pub image: u64,
    pub memory: u64,
}

/// An image that is to be created.
#[derive(Debug, Clone, Copy, PartialEq, Eq, Structural)]
pub struct ImageRequest {
    pub mapping: FormatMapping,
    pub size: Size,
    pub usage: u32,
}

/// Usage of an image that formats are converted through: source and destination of transfers.
pub const CONVERT_USAGE: u32 = 0x3;

impl CopySource {
    /// The source for copying a framebuffer.
    pub fn from_target(target: &VulkanTarget, fenced: bool) -> (source: Self)
        ensures
            source == (CopySource {
                image: target.target_image(),
                vk_format: target.target_format(),
                layout: target.transfer().layout,
                foreign: target is Dmabuf,
                fenced,
                size: target.target_size(),
            }),
    {
        let state = target.transfer_state();
        CopySource {
            image: target.image(),
            vk_format: target.vk_format(),
            layout: state.layout,
            foreign: state.foreign,
            fenced,
            size: target.size(),
        }
    }

    /// The source for copying a texture. Imported dmabufs stay in the general layout.
    pub fn from_texture(texture: &VulkanTexture, fenced: bool) -> (source: Self)
        ensures
            source == (CopySource {
                image: texture.image,
                vk_format: texture.vk_format,
                layout: if texture.dmabuf_imported {
                    ImageLayout::General
                } else {
                    texture.layout
                },
                foreign: texture.dmabuf_imported,
                fenced,
                size: texture.size,
            }),
    {
        CopySource {
            image: texture.image,
            vk_format: texture.vk_format,
            layout: if texture.dmabuf_imported {
                ImageLayout::General
            } else {
                texture.layout
            },
            foreign: texture.dmabuf_imported,
            fenced,
            size: texture.size,
        }
    }
}

/// How a region of an image is copied into a host-visible buffer.
#[derive(Debug, Clone, Copy, PartialEq, Eq, Structural)]
pub struct CopyPlan {
    source: CopySource,
    region: Rectangle,
    format: Fourcc,
    buffer_size: u64,
    /// The format of the temporary image that formats are converted through, if needed.
    convert: Option<FormatMapping>,
}

/// What a [`CopyPlan`] means.
pub struct CopyModel {
    pub source: CopySource,
    pub region: Rectangle,
    pub format: Fourcc,
    pub buffer_size: u64,
    pub convert: Option<FormatMapping>,
}

/// A submission: the commands, what can be destroyed once they completed, whether they wait for
/// the implicit fences of the source, and whether their completion has to be exportable.
#[derive(Debug)]
pub struct Submission {
    pub commands: Vec<Command>,
    pub cleanup: Vec<CleanupItem>,
    pub acquire_source: bool,
    pub with_export: bool,
}

/// The error for copying to memory, if there is one.
pub open spec fn copy_error(
    source: CopySource,
    region: Rectangle,
    format: Fourcc,
    little_endian: bool,
) -> Option<VulkanError> {
    if formats::mapping_of(format, little_endian) is None {
        Some(VulkanError::UnsupportedFormat(format))
    } else if !region.lies_within(source.size) {
        Some(VulkanError::OutOfBounds)
    } else {
        None
    }
}

/// The size of a region in memory, in bytes.
pub open spec fn region_bytes(region: Rectangle, format: Fourcc) -> int {
    region.size.w * region.size.h * formats::pixel_bytes(format)->0
}

impl CopyModel {
    /// The plan for a copy that is possible.
    pub open spec fn planned(
        source: CopySource,
        region: Rectangle,
        format: Fourcc,
        little_endian: bool,
    ) -> CopyModel {
        let mapping = formats::mapping_of(format, little_endian)->0;
        CopyModel {
            source,
            region,
            format,
            buffer_size: region_bytes(region, format) as u64,
            convert: if mapping.vk != source.vk_format {
                Some(mapping)
            } else {
                None
            },
        }
    }

    /// The layout in which the source is read.
    pub open spec fn read_layout(self) -> ImageLayout {
        if self.source.foreign || self.source.layout == ImageLayout::General {
            ImageLayout::General
        } else {
            ImageLayout::TransferSrcOptimal
        }
    }

    /// The barrier that makes the source readable, if one is needed.
    pub open spec fn acquire(self, queue_family: u32) -> Option<ImageBarrier> {
        if self.source.foreign {
            Some(
                commands::ownership_barrier(
                    queue_family,
                    true,
                    self.source.image,
                    ImageLayout::General,
                    ImageLayout::General,
                    STAGE_TRANSFER,
                    ACCESS_TRANSFER_READ,
                ),
            )
        } else if self.source.layout != ImageLayout::General {
            Some(
                ImageBarrier {
                    image: self.source.image,
                    old_layout: self.source.layout,
                    new_layout: ImageLayout::TransferSrcOptimal,
                    src_stage: STAGE_ALL_COMMANDS,
                    src_access: ACCESS_MEMORY_WRITE,
                    dst_stage: STAGE_TRANSFER,
                    dst_access: ACCESS_TRANSFER_READ,
                    src_family: 0,
                    dst_family: 0,
                },
            )
        } else {
            None
        }
    }

    /// The barrier that restores the source, if one is needed.
    pub open spec fn release(self, queue_family: u32) -> Option<ImageBarrier> {
        if self.source.foreign {
            Some(
                commands::ownership_barrier(
                    queue_family,
                    false,
                    self.source.image,
                    ImageLayout::General,
                    ImageLayout::General,
                    STAGE_TRANSFER,
                    ACCESS_TRANSFER_READ,
                ),
            )
        } else if self.source.layout != ImageLayout::General {
            Some(
                ImageBarrier {
                    image: self.source.image,
                    old_layout: ImageLayout::TransferSrcOptimal,
                    new_layout: self.source.layout,
                    src_stage: STAGE_TRANSFER,
                    src_access: ACCESS_TRANSFER_READ,
                    dst_stage: STAGE_ALL_COMMANDS,
                    dst_access: ACCESS_MEMORY,
                    src_family: 0,
                    dst_family: 0,
                },
            )
        } else {
            None
        }
    }

    /// The region as part of the temporary image.
    pub open spec fn temp_region(self) -> Rectangle {
        Rectangle { loc: Point { x: 0, y: 0 }, size: self.region.size }
    }

    /// The barriers of the temporary image: before and after the blit into it.
    pub open spec fn temp_barrier(self, temp: u64, after: bool) -> ImageBarrier {
        if after {
            ImageBarrier {
                image: temp,
                old_layout: ImageLayout::TransferDstOptimal,
                new_layout: ImageLayout::TransferSrcOptimal,
                src_stage: STAGE_TRANSFER,
                src_access: ACCESS_TRANSFER_WRITE,
                dst_stage: STAGE_TRANSFER,
                dst_access: ACCESS_TRANSFER_READ,
                src_family: 0,
                dst_family: 0,
            }
        } else {
            ImageBarrier {
                image: temp,
                old_layout: ImageLayout::Undefined,
                new_layout: ImageLayout::TransferDstOptimal,
                src_stage: STAGE_NONE,
                src_access: ACCESS_NONE,
                dst_stage: STAGE_TRANSFER,
                dst_access: ACCESS_TRANSFER_WRITE,
                src_family: 0,
                dst_family: 0,
            }
        }
    }

    /// The commands that read the source: directly, or by a blit that converts it into the
    /// temporary image, and a copy from there.
    pub open spec fn reads(self, buffer: u64, temp: Option<u64>) -> Seq<Command> {
        match temp {
            Some(temp) => seq![
                Command::Barrier(self.temp_barrier(temp, false)),
                commands::blit_command(
                    self.source.image,
                    self.read_layout(),
                    self.region,
                    temp,
                    ImageLayout::TransferDstOptimal,
                    self.temp_region(),
                    TextureFilter::Nearest,
                ),
                Command::Barrier(self.temp_barrier(temp, true)),
                Command::CopyImageToBuffer {
                    image: temp,
                    layout: ImageLayout::TransferSrcOptimal,
                    buffer,
                    region: self.temp_region(),
                },
            ],
            None => seq![
                Command::CopyImageToBuffer {
                    image: self.source.image,
                    layout: self.read_layout(),
                    buffer,
                    region: self.region,
                },
            ],
        }
    }

    /// All commands of the copy.
    pub open spec fn commands(self, buffer: u64, temp: Option<u64>, queue_family: u32) -> Seq<Command> {
        let acquired = commands::with_barrier(
            Seq::empty(),
            self.acquire(queue_family),
        );
        commands::with_barrier(
            acquired + self.reads(buffer, temp),
            self.release(queue_family),
        )
    }
}

impl CopyPlan {
    pub closed spec fn view(&self) -> CopyModel {
        CopyModel {
            source: self.source,
            region: self.region,
            format: self.format,
            buffer_size: self.buffer_size,
            convert: self.convert,
        }
    }

    /// The region lies in the source.
    pub closed spec fn wf(&self) -> bool {
        self.region.lies_within(self.source.size)
    }

    /// Plans copying a region of an image into a new host-visible buffer, converting formats via
    /// a blit through a temporary image if necessary.
    pub fn new(source: CopySource, region: Rectangle, format: Fourcc, little_endian: bool) -> (r: Result<
        CopyPlan,
        VulkanError,
    >)
        requires
            copy_error(source, region, format, little_endian) is None ==> region_bytes(
                region,
                format,
            ) <= u64::MAX,
        ensures
            match copy_error(source, region, format, little_endian) {
                Some(error) => r == Err::<CopyPlan, VulkanError>(error),
                None => r matches Ok(plan) && plan.wf() && plan@ == CopyModel::planned(
                    source,
                    region,
                    format,
                    little_endian,
                ),
            },
    {
        let mapping = match get_format_mapping(format, little_endian) {
            Some(mapping) => mapping,
            None => return Err(VulkanError::UnsupportedFormat(format)),
        };
        if !region.is_within(source.size) {
            return Err(VulkanError::OutOfBounds);
        }
        proof {
            formats::law_mappable_formats_have_a_pixel_size(
                format,
                little_endian,
            );
        }
        let bpp: u64 = match bytes_per_pixel(format) {
            Some(bytes) => bytes as u64,
            None => return Err(VulkanError::UnsupportedFormat(format)),
        };
        let (w, h) = (region.size.w as u64, region.size.h as u64);
        proof {
            assert(w * h <= w * h * bpp) by (nonlinear_arith)
                requires
                    w >= 0,
                    h >= 0,
                    bpp >= 1,
            ;
        }
        let convert = if mapping.vk != source.vk_format {
            Some(mapping)
        } else {
            None
        };
        Ok(CopyPlan { source, region, format, buffer_size: w * h * bpp, convert })
    }

    /// The size of the buffer that is copied into.
    pub fn buffer_size(&self) -> (size: u64)
        ensures
            size == self@.buffer_size,
    {
        self.buffer_size
    }

    /// The temporary image that is needed, if any.
    pub fn temp_image(&self) -> (request: Option<ImageRequest>)
        ensures
            request == match self@.convert {
                Some(mapping) => Some(
                    ImageRequest { mapping, size: self@.region.size, usage: CONVERT_USAGE },
                ),
                None => None,
            },
    {
        match self.convert {
            Some(mapping) => Some(
                ImageRequest { mapping, size: self.region.size, usage: CONVERT_USAGE },
            ),
            None => None,
        }
    }

    /// What is to be destroyed, in this order, if the temporary image or the submission fails.
    pub fn undo(&self, buffer: OwnedBuffer) -> (items: Vec<CleanupItem>)
        ensures
            items@ == seq![CleanupItem::Memory(buffer.memory), CleanupItem::Buffer(buffer.buffer)],
    {
        let items = vec![CleanupItem::Memory(buffer.memory), CleanupItem::Buffer(buffer.buffer)];
        assert(items@ =~= seq![
            CleanupItem::Memory(buffer.memory),
            CleanupItem::Buffer(buffer.buffer),
        ]);
        items
    }

    /// The submission that performs the copy. `temp` is the temporary image, if one is needed.
    pub fn submission(&self, buffer: OwnedBuffer, temp: Option<OwnedImage>, queue_family: u32) -> (submission:
        Submission)
        requires
            self.wf(),
            temp is Some <==> self@.convert is Some,
        ensures
            submission.commands@ == self@.commands(
                buffer.buffer,
                match temp {
                    Some(temp) => Some(temp.image),
                    None => None,
                },
                queue_family,
            ),
            submission.cleanup@ == match temp {
                Some(temp) => seq![
                    CleanupItem::Image(temp.image),
                    CleanupItem::Memory(temp.memory),
                ],
                None => Seq::empty(),
            },
            submission.acquire_source == self@.source.fenced,
            submission.with_export == self@.source.fenced,
    {
        let source = self.source;
        let read_layout = if source.foreign || source.layout == ImageLayout::General {
            ImageLayout::General
        } else {
            ImageLayout::TransferSrcOptimal
        };
        let mut commands: Vec<Command> = Vec::new();
        let mut cleanup: Vec<CleanupItem> = Vec::new();
        if source.foreign {
            commands.push(
                Command::Barrier(
                    foreign_barrier(
                        queue_family,
                        true,
                        source.image,
                        ImageLayout::General,
                        ImageLayout::General,
                        STAGE_TRANSFER,
                        ACCESS_TRANSFER_READ,
                    ),
                ),
            );
        } else if source.layout != ImageLayout::General {
            commands.push(
                Command::Barrier(
                    image_barrier(
                        source.image,
                        source.layout,
                        ImageLayout::TransferSrcOptimal,
                        STAGE_ALL_COMMANDS,
                        ACCESS_MEMORY_WRITE,
                        STAGE_TRANSFER,
                        ACCESS_TRANSFER_READ,
                    ),
                ),
            );
        }
        let ghost acquired = commands@;
        let ghost temp_id = match temp {
            Some(temp) => Some(temp.image),
            None => None,
        };
        match temp {
            Some(temp) => {
                commands.push(
                    Command::Barrier(
                        image_barrier(
                            temp.image,
                            ImageLayout::Undefined,
                            ImageLayout::TransferDstOptimal,
                            STAGE_NONE,
                            ACCESS_NONE,
                            STAGE_TRANSFER,
                            ACCESS_TRANSFER_WRITE,
                        ),
                    ),
                );
                commands.push(
                    blit_regions(
                        source.image,
                        read_layout,
                        self.region,
                        temp.image,
                        ImageLayout::TransferDstOptimal,
                        Rectangle::from_size(self.region.size),
                        TextureFilter::Nearest,
                    ),
                );
                commands.push(
                    Command::Barrier(
                        image_barrier(
                            temp.image,
                            ImageLayout::TransferDstOptimal,
                            ImageLayout::TransferSrcOptimal,
                            STAGE_TRANSFER,
                            ACCESS_TRANSFER_WRITE,
                            STAGE_TRANSFER,
                            ACCESS_TRANSFER_READ,
                        ),
                    ),
                );
                commands.push(
                    Command::CopyImageToBuffer {
                        image: temp.image,
                        layout: ImageLayout::TransferSrcOptimal,
                        buffer: buffer.buffer,
                        region: Rectangle::from_size(self.region.size),
                    },
                );
                cleanup.push(CleanupItem::Image(temp.image));
                cleanup.push(CleanupItem::Memory(temp.memory));
            },
            None => {
                commands.push(
                    Command::CopyImageToBuffer {
                        image: source.image,
                        layout: read_layout,
                        buffer: buffer.buffer,
                        region: self.region,
                    },
                );
            },
        }
        assert(commands@ =~= acquired + self@.reads(buffer.buffer, temp_id));
        if source.foreign {
            commands.push(
                Command::Barrier(
                    foreign_barrier(
                        queue_family,
                        false,
                        source.image,
                        ImageLayout::General,
                        ImageLayout::General,
                        STAGE_TRANSFER,
                        ACCESS_TRANSFER_READ,
                    ),
                ),
            );
        } else if source.layout != ImageLayout::General {
            commands.push(
                Command::Barrier(
                    image_barrier(
                        source.image,
                        ImageLayout::TransferSrcOptimal,
                        source.layout,
                        STAGE_TRANSFER,
                        ACCESS_TRANSFER_READ,
                        STAGE_ALL_COMMANDS,
                        ACCESS_MEMORY,
                    ),
                ),
            );
        }
        assert(commands@ =~= self@.commands(buffer.buffer, temp_id, queue_family));
        Submission {
            commands,
            cleanup,
            acquire_source: source.fenced,
            with_export: source.fenced,
        }
    }

    /// Whether the read has to be marked on the source, for producers that reuse the buffer.
    pub fn releases_source(&self) -> (releases: bool)
        ensures
            releases == self@.source.fenced,
    {
        self.source.fenced
    }

    /// The mapping, once the copy was submitted.
    pub fn finish(&self, buffer: OwnedBuffer, point: u64) -> (mapping: VulkanTextureMapping)
        ensures
            mapping == (VulkanTextureMapping {
                buffer: buffer.buffer,
                memory: buffer.memory,
                format: self@.format,
                size: self@.region.size,
                point,
            }),
    {
        VulkanTextureMapping {
            buffer: buffer.buffer,
            memory: buffer.memory,
            format: self.format,
            size: self.region.size,
            point,
        }
    }
}

/// The commands of a copy are valid one after the other, and leave the source as it was: in its
/// layout, and with its owner. A source without contents cannot be restored.
pub proof fn law_copy_restores_the_source(
    plan: CopyModel,
    images: Map<u64, ImageState>,
    buffer: u64,
    temp: Option<u64>,
    queue_family: u32,
)
    requires
        queue_family != QUEUE_FAMILY_FOREIGN,
        images.dom().contains(plan.source.image),
        images[plan.source.image] == (ImageState {
            layout: plan.source.layout,
            foreign: plan.source.foreign,
        }),
        plan.source.layout.is_target(),
        plan.source.foreign ==> plan.source.layout == ImageLayout::General,
        temp matches Some(temp) ==> temp != plan.source.image && images.dom().contains(temp)
            && images[temp] == (ImageState { layout: ImageLayout::Undefined, foreign: false }),
    ensures
        ({
            let after = commands::run(
                images,
                plan.commands(buffer, temp, queue_family),
                queue_family,
            );
            &&& after is Some
            &&& after->0[plan.source.image] == images[plan.source.image]
            &&& forall|i: u64|
                #![trigger after->0[i]]
                images.dom().contains(i) && Some(i) != temp ==> after->0[i] == images[i]
        }),
{
    let none = Seq::<Command>::empty();
    let acquired = commands::with_barrier(
        none,
        plan.acquire(queue_family),
    );
    let reads = plan.reads(buffer, temp);
    let ready = match plan.acquire(queue_family) {
        Some(barrier) => images.insert(
            barrier.image,
            commands::state_after(barrier),
        ),
        None => images,
    };
    if let Some(barrier) = plan.acquire(queue_family) {
        commands::lemma_run_push(
            images,
            none,
            Command::Barrier(barrier),
            queue_family,
        );
    }
    assert(commands::run(images, acquired, queue_family) == Some(
        ready,
    ));
    assert(commands::is_usable(
        ready,
        plan.source.image,
        plan.read_layout(),
    ));
    match temp {
        Some(temp_image) => {
            let c1 = acquired.push(reads[0]);
            let c2 = c1.push(reads[1]);
            let c3 = c2.push(reads[2]);
            let c4 = c3.push(reads[3]);
            assert(acquired + reads =~= c4);
            commands::lemma_run_push(
                images,
                acquired,
                reads[0],
                queue_family,
            );
            commands::lemma_run_push(
                images,
                c1,
                reads[1],
                queue_family,
            );
            commands::lemma_run_push(
                images,
                c2,
                reads[2],
                queue_family,
            );
            commands::lemma_run_push(
                images,
                c3,
                reads[3],
                queue_family,
            );
        },
        None => {
            assert(acquired + reads =~= acquired.push(reads[0]));
            commands::lemma_run_push(
                images,
                acquired,
                reads[0],
                queue_family,
            );
        },
    }
    if let Some(barrier) = plan.release(queue_family) {
        commands::lemma_run_push(
            images,
            acquired + reads,
            Command::Barrier(barrier),
            queue_family,
        );
    }
}

/// Whether a region can take part in a blit: it starts and ends within the image.
pub open spec fn is_blittable(region: Rectangle, size: Size) -> bool {
    &&& region.loc.x >= 0 && region.loc.y >= 0
    &&& region.loc.x + region.size.w <= size.w
    &&& region.loc.y + region.size.h <= size.h
}

fn can_blit(region: Rectangle, size: Size) -> (can: bool)
    ensures
        can == is_blittable(region, size),
        can ==> region.is_bounded(),
{
    region.loc.x >= 0 && region.loc.y >= 0 && region.loc.x as i64 + region.size.w as i64
        <= size.w as i64 && region.loc.y as i64 + region.size.h as i64 <= size.h as i64
}

/// The error for a blit between two targets, if there is one.
pub open spec fn blit_error(from: VulkanTarget, to: VulkanTarget, src: Rectangle, dst: Rectangle) -> Option<
    VulkanError,
> {
    if from.target_image() == to.target_image() {
        Some(VulkanError::BlitSameImage)
    } else if !is_blittable(src, from.target_size()) || !is_blittable(dst, to.target_size()) {
        Some(VulkanError::OutOfBounds)
    } else {
        None
    }
}

/// The commands of a blit between two images: both are made ready, and brought back.
pub open spec fn blit_commands(
    src_image: u64,
    src_state: TransferState,
    src: Rectangle,
    dst_image: u64,
    dst_state: TransferState,
    dst: Rectangle,
    filter: TextureFilter,
    queue_family: u32,
) -> Seq<Command> {
    let blitted = seq![
        Command::Barrier(commands::prepare_barrier(queue_family, src_image, src_state, false)),
        Command::Barrier(commands::prepare_barrier(queue_family, dst_image, dst_state, true)),
        commands::blit_command(
            src_image,
            src_state.during(false),
            src,
            dst_image,
            dst_state.during(true),
            dst,
            filter,
        ),
    ];
    commands::with_barrier(
        commands::with_barrier(
            blitted,
            commands::restore_barrier(queue_family, src_image, src_state, false),
        ),
        commands::restore_barrier(queue_family, dst_image, dst_state, true),
    )
}

/// Plans a blit between two targets.
pub fn blit(
    from: &VulkanTarget,
    to: &VulkanTarget,
    src: Rectangle,
    dst: Rectangle,
    filter: TextureFilter,
    queue_family: u32,
) -> (r: Result<Vec<Command>, VulkanError>)
    ensures
        match blit_error(*from, *to, src, dst) {
            Some(error) => r == Err::<Vec<Command>, VulkanError>(error),
            None => r matches Ok(commands) && commands@ == blit_commands(
                from.target_image(),
                from.transfer(),
                src,
                to.target_image(),
                to.transfer(),
                dst,
                filter,
                queue_family,
            ),
        },
{
    let src_image: u64 = from.image();
    let dst_image: u64 = to.image();
    if src_image == dst_image {
        return Err(VulkanError::BlitSameImage);
    }
    if !can_blit(src, from.size()) || !can_blit(dst, to.size()) {
        return Err(VulkanError::OutOfBounds);
    }
    let src_state = from.transfer_state();
    let dst_state = to.transfer_state();
    let mut commands: Vec<Command> = Vec::new();
    transfer_prepare(&mut commands, queue_family, src_image, &src_state, false);
    transfer_prepare(&mut commands, queue_family, dst_image, &dst_state, true);
    commands.push(
        blit_regions(
            src_image,
            src_state.transfer_layout(false),
            src,
            dst_image,
            dst_state.transfer_layout(true),
            dst,
            filter,
        ),
    );
    proof {
        assert(commands@ =~= seq![
            Command::Barrier(commands::prepare_barrier(queue_family, src_image, src_state, false)),
            Command::Barrier(commands::prepare_barrier(queue_family, dst_image, dst_state, true)),
            commands::blit_command(
                src_image,
                src_state.during(false),
                src,
                dst_image,
                dst_state.during(true),
                dst,
                filter,
            ),
        ]);
    }
    transfer_restore(&mut commands, queue_family, src_image, &src_state, false);
    transfer_restore(&mut commands, queue_family, dst_image, &dst_state, true);
    Ok(commands)
}

/// Takes note that a blit between two targets was submitted.
pub fn blit_submitted(from: &mut VulkanTarget, to: &mut VulkanTarget, point: u64)
    ensures
        *final(from) == old(from).used(point),
        *final(to) == old(to).used(point).written(),
{
    from.mark_used(point);
    to.mark_used(point);
    to.mark_written();
}

/// What a blit between targets has to do about implicit fences.
#[derive(Debug, Clone, Copy, PartialEq, Eq, Structural)]
pub struct BlitFences {
    /// Wait for outstanding writes to the source.
    pub acquire_source: bool,
    /// Wait for all outstanding accesses to the destination.
    pub acquire_destination: bool,
    /// Mark the accesses for consumers of the dmabufs.
    pub release: bool,
}

/// What a blit has to do about implicit fences. The accesses can only be marked if the
/// completion of the blit is exportable.
pub fn blit_fences(source_fenced: bool, destination_fenced: bool, exportable: bool) -> (fences: BlitFences)
    ensures
        fences == (BlitFences {
            acquire_source: source_fenced,
            acquire_destination: destination_fenced,
            release: (source_fenced || destination_fenced) && exportable,
        }),
{
    BlitFences {
        acquire_source: source_fenced,
        acquire_destination: destination_fenced,
        release: (source_fenced || destination_fenced) && exportable,
    }
}

/// The commands of a blit are valid one after the other, and leave both images with their
/// owners, in the layouts they had. Only a destination without contents ends in the layout of
/// the transfer.
pub proof fn law_blit_restores_both_images(
    images: Map<u64, ImageState>,
    src_image: u64,
    src_state: TransferState,
    src: Rectangle,
    dst_image: u64,
    dst_state: TransferState,
    dst: Rectangle,
    filter: TextureFilter,
    queue_family: u32,
)
    requires
        queue_family != QUEUE_FAMILY_FOREIGN,
        src_image != dst_image,
        images.dom().contains(src_image),
        images.dom().contains(dst_image),
        images[src_image] == (ImageState { layout: src_state.layout, foreign: src_state.foreign }),
        images[dst_image] == (ImageState { layout: dst_state.layout, foreign: dst_state.foreign }),
        src_state.foreign ==> src_state.layout == ImageLayout::General,
        dst_state.foreign ==> dst_state.layout == ImageLayout::General,
        src_state.layout.is_target(),
        dst_state.layout != ImageLayout::Preinitialized,
    ensures
        ({
            let after = commands::run(
                images,
                blit_commands(
                    src_image,
                    src_state,
                    src,
                    dst_image,
                    dst_state,
                    dst,
                    filter,
                    queue_family,
                ),
                queue_family,
            );
            &&& after is Some
            &&& after->0[src_image] == images[src_image]
            &&& after->0[dst_image] == (ImageState {
                layout: dst_state.afterwards(true),
                foreign: dst_state.foreign,
            })
            &&& forall|i: u64|
                #![trigger after->0[i]]
                images.dom().contains(i) && i != dst_image ==> after->0[i] == images[i]
        }),
{
    let none = Seq::<Command>::empty();
    let b1 = commands::prepare_barrier(queue_family, src_image, src_state, false);
    let b2 = commands::prepare_barrier(queue_family, dst_image, dst_state, true);
    let command = commands::blit_command(
        src_image,
        src_state.during(false),
        src,
        dst_image,
        dst_state.during(true),
        dst,
        filter,
    );
    let c1 = none.push(Command::Barrier(b1));
    let c2 = c1.push(Command::Barrier(b2));
    let c3 = c2.push(command);
    let r1 = commands::restore_barrier(queue_family, src_image, src_state, false);
    let r2 = commands::restore_barrier(queue_family, dst_image, dst_state, true);
    let c4 = commands::with_barrier(c3, r1);
    let c5 = commands::with_barrier(c4, r2);
    assert(c3 =~= seq![Command::Barrier(b1), Command::Barrier(b2), command]);
    let i1 = images.insert(src_image, commands::state_after(b1));
    let i2 = i1.insert(dst_image, commands::state_after(b2));
    commands::law_prepared_for_transfer(images, queue_family, src_image, src_state, false);
    commands::law_prepared_for_transfer(i1, queue_family, dst_image, dst_state, true);
    commands::lemma_run_push(images, none, Command::Barrier(b1), queue_family);
    commands::lemma_run_push(images, c1, Command::Barrier(b2), queue_family);
    commands::lemma_run_push(images, c2, command, queue_family);
    assert(commands::run(images, c3, queue_family) == Some(i2));
    commands::law_restored_after_transfer(i2, queue_family, src_image, src_state, false);
    let i3 = match r1 {
        Some(barrier) => i2.insert(src_image, commands::state_after(barrier)),
        None => i2,
    };
    if let Some(barrier) = r1 {
        commands::lemma_run_push(images, c3, Command::Barrier(barrier), queue_family);
    }
    assert(commands::run(images, c4, queue_family) == Some(i3));
    commands::law_restored_after_transfer(i3, queue_family, dst_image, dst_state, true);
    if let Some(barrier) = r2 {
        commands::lemma_run_push(images, c4, Command::Barrier(barrier), queue_family);
    }
}

/// A copy reads exactly the planned region of the source, at its location, and writes it to the
/// buffer, once. Without a temporary image the one command that writes the buffer reads that
/// region. With one, the blit into the temporary image reads it, whole and unscaled, and what is
/// then written to the buffer is the temporary image from its corner on.
pub proof fn law_copy_reads_the_planned_region(
    plan: CopyModel,
    buffer: u64,
    temp: Option<u64>,
    queue_family: u32,
)
    requires
        plan.region.is_bounded(),
    ensures
        ({
            let list = plan.commands(buffer, temp, queue_family);
            let from = plan.region.loc;
            let size = plan.region.size;
            &&& forall|i: int|
                0 <= i < list.len() ==> match #[trigger] list[i] {
                    Command::CopyImageToBuffer { image, buffer: b, region, layout } => {
                        &&& b == buffer
                        &&& region.size == size
                        &&& temp is None ==> image == plan.source.image && region.loc == from
                        &&& temp is Some ==> Some(image) == temp && region.loc.x == 0 && region.loc.y
                            == 0
                    },
                    Command::Blit {
                        src_image,
                        src_from,
                        src_to,
                        dst_image,
                        dst_from,
                        dst_to,
                        filter,
                        ..
                    } => {
                        &&& src_image == plan.source.image && Some(dst_image) == temp
                        &&& src_from == from && src_to.x == from.x + size.w && src_to.y == from.y
                            + size.h
                        &&& dst_from.x == 0 && dst_from.y == 0 && dst_to.x == size.w && dst_to.y
                            == size.h
                        &&& filter == TextureFilter::Nearest
                    },
                    Command::Barrier(barrier) => barrier.image == plan.source.image || Some(
                        barrier.image,
                    ) == temp,
                    _ => false,
                }
            &&& exists|k: int|
                {
                    &&& 0 <= k < list.len() && #[trigger] list[k] is CopyImageToBuffer
                    &&& forall|i: int|
                        0 <= i < list.len() && #[trigger] list[i] is CopyImageToBuffer ==> i == k
                    &&& temp is Some ==> exists|i: int| 0 <= i < k && #[trigger] list[i] is Blit
                }
        }),
{
    let list = plan.commands(buffer, temp, queue_family);
    let n: int = if plan.acquire(queue_family) is Some {
        1
    } else {
        0
    };
    let reads = plan.reads(buffer, temp);
    assert forall|i: int| 0 <= i < reads.len() implies list[n + i] == #[trigger] reads[i] by {}
    if temp is Some {
        assert(reads.len() == 4);
        assert(list[n + 1] is Blit);
        assert(list[n + 3] is CopyImageToBuffer);
    } else {
        assert(reads.len() == 1);
        assert(list[n] is CopyImageToBuffer);
    }
}

/// A copy holds the region that was asked for, in the format that was asked for, and takes up as
/// many bytes as the region has pixels times the bytes of a pixel. It goes through a temporary
/// image, in the format that was asked for, exactly if the source has another.
pub proof fn law_copy_plan_is_what_was_asked_for(
    source: CopySource,
    region: Rectangle,
    format: Fourcc,
    little_endian: bool,
    bytes: usize,
)
    requires
        formats::pixel_bytes(format) == Some(bytes),
        formats::mapping_of(format, little_endian) is Some,
        0 <= region.size.w * region.size.h * bytes <= u64::MAX,
    ensures
        ({
            let plan = CopyModel::planned(source, region, format, little_endian);
            &&& plan.source == source
            &&& plan.region == region
            &&& plan.format == format
            &&& plan.buffer_size == region.size.w * region.size.h * bytes
            &&& match plan.convert {
                Some(mapping) => Some(mapping) == formats::mapping_of(format, little_endian)
                    && mapping.vk != source.vk_format,
                None => formats::mapping_of(format, little_endian)->0.vk == source.vk_format,
            }
        }),
{
}

/// A copy is refused exactly if its format is not known, or else if its region is empty or not
/// inside of the source.
pub proof fn law_when_a_copy_is_refused(
    source: CopySource,
    region: Rectangle,
    format: Fourcc,
    little_endian: bool,
)
    ensures
        ({
            let known = formats::mapping_of(format, little_endian) is Some;
            let inside = 0 <= region.loc.x && 0 <= region.loc.y && 0 < region.size.w && 0
                < region.size.h && region.loc.x + region.size.w <= source.size.w && region.loc.y
                + region.size.h <= source.size.h;
            let error = copy_error(source, region, format, little_endian);
            &&& !known <==> error == Some(VulkanError::UnsupportedFormat(format))
            &&& known && !inside <==> error == Some(VulkanError::OutOfBounds)
            &&& known && inside <==> error is None
        }),
{
}

/// A copy is ordered against all other work: its source is ready for transfers to read before it
/// is read, and whatever comes afterwards waits for that read.
pub proof fn law_copy_is_ordered(plan: CopyModel, queue_family: u32)
    ensures
        plan.acquire(queue_family) is Some <==> plan.source.foreign || plan.source.layout
            != ImageLayout::General,
        plan.release(queue_family) is Some <==> plan.acquire(queue_family) is Some,
        plan.acquire(queue_family) matches Some(barrier) ==> {
            &&& barrier.image == plan.source.image
            &&& barrier.dst_stage == STAGE_TRANSFER && barrier.dst_access == ACCESS_TRANSFER_READ
            &&& !plan.source.foreign ==> barrier.src_stage == STAGE_ALL_COMMANDS && barrier.src_access
                == ACCESS_MEMORY_WRITE
        },
        plan.release(queue_family) matches Some(barrier) ==> {
            &&& barrier.image == plan.source.image
            &&& barrier.src_stage == STAGE_TRANSFER && barrier.src_access == ACCESS_TRANSFER_READ
            &&& !plan.source.foreign ==> barrier.dst_stage == STAGE_ALL_COMMANDS && barrier.dst_access
                == ACCESS_MEMORY
        },
        forall|temp: u64| #[trigger]
            plan.temp_barrier(temp, false).image == temp && plan.temp_barrier(temp, true).image == temp,
        forall|temp: u64|
            (#[trigger] plan.temp_barrier(temp, false)).dst_stage == STAGE_TRANSFER
                && plan.temp_barrier(temp, false).dst_access == ACCESS_TRANSFER_WRITE,
        forall|temp: u64|
            {
                let barrier = #[trigger] plan.temp_barrier(temp, true);
                &&& barrier.src_stage == STAGE_TRANSFER && barrier.src_access == ACCESS_TRANSFER_WRITE
                &&& barrier.dst_stage == STAGE_TRANSFER && barrier.dst_access == ACCESS_TRANSFER_READ
            },
{
}

/// A blit copies the one region into the other, once, with the filter that was asked for, and
/// concerns no other images.
pub proof fn law_blit_copies_the_region(
    src_image: u64,
    src_state: TransferState,
    src: Rectangle,
    dst_image: u64,
    dst_state: TransferState,
    dst: Rectangle,
    filter: TextureFilter,
    queue_family: u32,
)
    requires
        src.is_bounded(),
        dst.is_bounded(),
    ensures
        ({
            let list = blit_commands(
                src_image,
                src_state,
                src,
                dst_image,
                dst_state,
                dst,
                filter,
                queue_family,
            );
            &&& forall|i: int|
                0 <= i < list.len() ==> match #[trigger] list[i] {
                    Command::Blit {
                        src_image: from,
                        src_from,
                        src_to,
                        dst_image: to,
                        dst_from,
                        dst_to,
                        filter: f,
                        ..
                    } => {
                        &&& i == 2
                        &&& from == src_image && to == dst_image && f == filter
                        &&& src_from == src.loc && dst_from == dst.loc
                        &&& src_to.x == src.loc.x + src.size.w && src_to.y == src.loc.y + src.size.h
                        &&& dst_to.x == dst.loc.x + dst.size.w && dst_to.y == dst.loc.y + dst.size.h
                    },
                    Command::Barrier(barrier) => barrier.image == src_image || barrier.image
                        == dst_image,
                    _ => false,
                }
            &&& list.len() >= 3 && list[2] is Blit
        }),
{
}

/// A blit is refused exactly if it is from an image into itself, or else if one of the regions is
/// not inside of its image.
pub proof fn law_when_a_blit_is_refused(
    from: VulkanTarget,
    to: VulkanTarget,
    src: Rectangle,
    dst: Rectangle,
)
    ensures
        ({
            let same = from.target_image() == to.target_image();
            let src_fits = 0 <= src.loc.x && 0 <= src.loc.y && src.loc.x + src.size.w
                <= from.target_size().w && src.loc.y + src.size.h <= from.target_size().h;
            let dst_fits = 0 <= dst.loc.x && 0 <= dst.loc.y && dst.loc.x + dst.size.w
                <= to.target_size().w && dst.loc.y + dst.size.h <= to.target_size().h;
            let error = blit_error(from, to, src, dst);
            &&& same <==> error == Some(VulkanError::BlitSameImage)
            &&& !same && !(src_fits && dst_fits) <==> error == Some(VulkanError::OutOfBounds)
            &&& !same && src_fits && dst_fits <==> error is None
        }),
{
}

} // verus!
