//! Commands for the graphics queue, and what they do to the images they touch.

use vstd::prelude::*;

use crate::backend::renderer::geometry::{Point, Rectangle, Size};
use crate::backend::renderer::vulkan::color_params::ColorBlendParams;

verus! {

/// Layouts of images.
#[derive(Debug, Clone, Copy, PartialEq, Eq, Structural)]
pub enum ImageLayout {
    Undefined,
    General,
    ColorAttachmentOptimal,
    ShaderReadOnlyOptimal,
    TransferSrcOptimal,
    TransferDstOptimal,
    Preinitialized,
}

impl ImageLayout {
    /// The number of the layout.
    pub open spec fn number(self) -> i32 {
        match self {
            ImageLayout::Undefined => 0,
            ImageLayout::General => 1,
            ImageLayout::ColorAttachmentOptimal => 2,
            ImageLayout::ShaderReadOnlyOptimal => 5,
            ImageLayout::TransferSrcOptimal => 6,
            ImageLayout::TransferDstOptimal => 7,
            ImageLayout::Preinitialized => 8,
        }
    }

    /// The number of the layout.
    pub fn raw(&self) -> (number: i32)
        ensures
            number == self.number(),
    {
        match self {
            ImageLayout::Undefined => 0,
            ImageLayout::General => 1,
            ImageLayout::ColorAttachmentOptimal => 2,
            ImageLayout::ShaderReadOnlyOptimal => 5,
            ImageLayout::TransferSrcOptimal => 6,
            ImageLayout::TransferDstOptimal => 7,
            ImageLayout::Preinitialized => 8,
        }
    }

    /// Whether images can be brought into this layout.
    pub open spec fn is_target(self) -> bool {
        self != ImageLayout::Undefined && self != ImageLayout::Preinitialized
    }
}

/// No stage of the pipeline.
pub const STAGE_NONE: u64 = 0;

/// Fragment shaders.
pub const STAGE_FRAGMENT_SHADER: u64 = 0x80;

/// Output to color attachments.
pub const STAGE_COLOR_ATTACHMENT_OUTPUT: u64 = 0x400;

/// Transfers.
pub const STAGE_TRANSFER: u64 = 0x1000;

/// All commands.
pub const STAGE_ALL_COMMANDS: u64 = 0x1_0000;

/// No access.
pub const ACCESS_NONE: u64 = 0;

/// Reading in shaders.
pub const ACCESS_SHADER_READ: u64 = 0x20;

/// Writing a color attachment.
pub const ACCESS_COLOR_ATTACHMENT_WRITE: u64 = 0x100;

/// Reading and writing a color attachment.
pub const ACCESS_COLOR_ATTACHMENT: u64 = 0x180;

/// Reading in a transfer.
pub const ACCESS_TRANSFER_READ: u64 = 0x800;

/// Writing in a transfer.
pub const ACCESS_TRANSFER_WRITE: u64 = 0x1000;

/// Reading and writing in a transfer.
pub const ACCESS_TRANSFER: u64 = 0x1800;

/// Any writing.
pub const ACCESS_MEMORY_WRITE: u64 = 0x1_0000;

/// Any reading and writing.
pub const ACCESS_MEMORY: u64 = 0x1_8000;

/// The queue family of whoever else uses a shared image.
pub const QUEUE_FAMILY_FOREIGN: u32 = 0xFFFF_FFFD;

/// A barrier: a change of an image's layout or owner, and the accesses it orders.
#[derive(Debug, Clone, Copy, PartialEq, Eq, Structural)]
pub struct ImageBarrier {
    pub image: u64,
    pub old_layout: ImageLayout,
    pub new_layout: ImageLayout,
    pub src_stage: u64,
    pub src_access: u64,
    pub dst_stage: u64,
    pub dst_access: u64,
    pub src_family: u32,
    pub dst_family: u32,
}

/// How texels are picked when an image is scaled.
#[derive(Debug, Clone, Copy, PartialEq, Eq, Structural)]
pub enum TextureFilter {
    Linear,
    Nearest,
}

/// What a rectangle is filled with.
#[derive(Debug, Clone, Copy, PartialEq, Eq)]
pub enum Fill {
    /// A color with premultiplied alpha: the bits of its red, green, blue and alpha.
    Color([u32; 4]),
    /// The bound texture, with the bits of its opacity. It can be tinted for debugging.
    Texture { alpha: u32, tinted: bool },
}

/// A command.
#[derive(Debug, Clone, Copy, PartialEq, Eq)]
pub enum Command {
    /// A barrier.
    Barrier(ImageBarrier),
    /// Copies a region of an image into one of another, scaling and converting as needed. The
    /// regions are given by two opposite corners.
    Blit {
        src_image: u64,
        src_layout: ImageLayout,
        src_from: Point,
        src_to: Point,
        dst_image: u64,
        dst_layout: ImageLayout,
        dst_from: Point,
        dst_to: Point,
        filter: TextureFilter,
    },
    /// Copies a region of an image into a buffer, tightly packed.
    CopyImageToBuffer { image: u64, layout: ImageLayout, buffer: u64, region: Rectangle },
    /// Copies a tightly packed buffer into a region of an image.
    CopyBufferToImage { buffer: u64, image: u64, layout: ImageLayout, region: Rectangle },
    /// Begins rendering into an image of the given size. Its contents are loaded.
    BeginRendering { image: u64, layout: ImageLayout, size: Size },
    /// Ends rendering.
    EndRendering,
    /// Sets the viewport and the scissor to the whole of an area.
    SetArea(Size),
    /// Binds a pipeline.
    BindPipeline(u64),
    /// Binds the descriptor set through which an image is sampled, and the color parameters with
    /// which it is drawn.
    BindTexture { set: u64, image: u64, params: Option<ColorBlendParams> },
    /// Draws a rectangle.
    Draw { rect: Rectangle, fill: Fill },
}

/// A barrier that changes the layout of an image.
pub fn image_barrier(
    image: u64,
    old_layout: ImageLayout,
    new_layout: ImageLayout,
    src_stage: u64,
    src_access: u64,
    dst_stage: u64,
    dst_access: u64,
) -> (barrier: ImageBarrier)
    ensures
        barrier == (ImageBarrier {
            image,
            old_layout,
            new_layout,
            src_stage,
            src_access,
            dst_stage,
            dst_access,
            src_family: 0,
            dst_family: 0,
        }),
{
    ImageBarrier {
        image,
        old_layout,
        new_layout,
        src_stage,
        src_access,
        dst_stage,
        dst_access,
        src_family: 0,
        dst_family: 0,
    }
}

/// The barrier that moves an image between the foreign queue and ours.
pub open spec fn ownership_barrier(
    queue_family: u32,
    acquire: bool,
    image: u64,
    old_layout: ImageLayout,
    new_layout: ImageLayout,
    stage: u64,
    access: u64,
) -> ImageBarrier {
    if acquire {
        ImageBarrier {
            image,
            old_layout,
            new_layout,
            src_stage: STAGE_NONE,
            src_access: ACCESS_NONE,
            dst_stage: stage,
            dst_access: access,
            src_family: QUEUE_FAMILY_FOREIGN,
            dst_family: queue_family,
        }
    } else {
        ImageBarrier {
            image,
            old_layout,
            new_layout,
            src_stage: stage,
            src_access: access,
            dst_stage: STAGE_NONE,
            dst_access: ACCESS_NONE,
            src_family: queue_family,
            dst_family: QUEUE_FAMILY_FOREIGN,
        }
    }
}

/// Queue family ownership transfer barrier from or to the foreign queue.
pub fn foreign_barrier(
    queue_family: u32,
    acquire: bool,
    image: u64,
    old_layout: ImageLayout,
    new_layout: ImageLayout,
    stage: u64,
    access: u64,
) -> (barrier: ImageBarrier)
    ensures
        barrier == ownership_barrier(
            queue_family,
            acquire,
            image,
            old_layout,
            new_layout,
            stage,
            access,
        ),
{
    let mut barrier = image_barrier(
        image,
        old_layout,
        new_layout,
        STAGE_NONE,
        ACCESS_NONE,
        STAGE_NONE,
        ACCESS_NONE,
    );
    if acquire {
        barrier.src_family = QUEUE_FAMILY_FOREIGN;
        barrier.dst_family = queue_family;
        barrier.dst_stage = stage;
        barrier.dst_access = access;
    } else {
        barrier.src_family = queue_family;
        barrier.dst_family = QUEUE_FAMILY_FOREIGN;
        barrier.src_stage = stage;
        barrier.src_access = access;
    }
    barrier
}

/// The corner opposite to the location of a rectangle.
pub open spec fn far_corner(rect: Rectangle) -> Point {
    Point { x: (rect.loc.x + rect.size.w) as i32, y: (rect.loc.y + rect.size.h) as i32 }
}

/// A blit between two regions.
pub open spec fn blit_command(
    src_image: u64,
    src_layout: ImageLayout,
    src: Rectangle,
    dst_image: u64,
    dst_layout: ImageLayout,
    dst: Rectangle,
    filter: TextureFilter,
) -> Command {
    Command::Blit {
        src_image,
        src_layout,
        src_from: src.loc,
        src_to: far_corner(src),
        dst_image,
        dst_layout,
        dst_from: dst.loc,
        dst_to: far_corner(dst),
        filter,
    }
}

/// A blit between two regions.
pub fn blit_regions(
    src_image: u64,
    src_layout: ImageLayout,
    src: Rectangle,
    dst_image: u64,
    dst_layout: ImageLayout,
    dst: Rectangle,
    filter: TextureFilter,
) -> (command: Command)
    requires
        src.is_bounded(),
        dst.is_bounded(),
    ensures
        command == blit_command(src_image, src_layout, src, dst_image, dst_layout, dst, filter),
{
    Command::Blit {
        src_image,
        src_layout,
        src_from: src.loc,
        src_to: Point { x: src.loc.x + src.size.w, y: src.loc.y + src.size.h },
        dst_image,
        dst_layout,
        dst_from: dst.loc,
        dst_to: Point { x: dst.loc.x + dst.size.w, y: dst.loc.y + dst.size.h },
        filter,
    }
}

/// The state of an image: its layout, and whether someone else owns it.
#[derive(Debug, Clone, Copy, PartialEq, Eq, Structural)]
pub struct ImageState {
    pub layout: ImageLayout,
    pub foreign: bool,
}

/// Whether a barrier is valid in a state of the image: it names the layout the image has (or
/// does not care for its contents), and the one who owns it.
pub open spec fn barrier_fits(state: ImageState, barrier: ImageBarrier, queue_family: u32) -> bool {
    &&& barrier.old_layout == ImageLayout::Undefined || barrier.old_layout == state.layout
    &&& barrier.new_layout.is_target()
    &&& if barrier.src_family == barrier.dst_family {
        !state.foreign
    } else if barrier.src_family == QUEUE_FAMILY_FOREIGN {
        barrier.dst_family == queue_family && state.foreign
    } else {
        barrier.src_family == queue_family && barrier.dst_family == QUEUE_FAMILY_FOREIGN
            && !state.foreign
    }
}

/// The state of the image after a barrier.
pub open spec fn state_after(barrier: ImageBarrier) -> ImageState {
    ImageState {
        layout: barrier.new_layout,
        foreign: barrier.src_family != barrier.dst_family && barrier.dst_family
            == QUEUE_FAMILY_FOREIGN,
    }
}

/// Whether an image is ours and in this layout.
pub open spec fn is_usable(
    images: Map<u64, ImageState>,
    image: u64,
    layout: ImageLayout,
) -> bool {
    images.dom().contains(image) && images[image].layout == layout && !images[image].foreign
}

/// Whether images in this layout can be read in a transfer.
pub open spec fn is_readable(layout: ImageLayout) -> bool {
    layout == ImageLayout::General || layout == ImageLayout::TransferSrcOptimal
}

/// Whether images in this layout can be written in a transfer.
pub open spec fn is_writable(layout: ImageLayout) -> bool {
    layout == ImageLayout::General || layout == ImageLayout::TransferDstOptimal
}

/// Whether images in this layout can be rendered into.
pub open spec fn is_attachable(layout: ImageLayout) -> bool {
    layout == ImageLayout::General || layout == ImageLayout::ColorAttachmentOptimal
}

/// Whether a command is valid for the images as they are.
pub open spec fn command_fits(
    images: Map<u64, ImageState>,
    command: Command,
    queue_family: u32,
) -> bool {
    match command {
        Command::Barrier(barrier) => images.dom().contains(barrier.image) && barrier_fits(
            images[barrier.image],
            barrier,
            queue_family,
        ),
        Command::Blit { src_image, src_layout, dst_image, dst_layout, .. } => {
            &&& src_image != dst_image
            &&& is_usable(images, src_image, src_layout) && is_readable(src_layout)
            &&& is_usable(images, dst_image, dst_layout) && is_writable(dst_layout)
        },
        Command::CopyImageToBuffer { image, layout, .. } => is_usable(images, image, layout)
            && is_readable(layout),
        Command::CopyBufferToImage { image, layout, .. } => is_usable(images, image, layout)
            && is_writable(layout),
        Command::BeginRendering { image, layout, .. } => is_usable(images, image, layout)
            && is_attachable(layout),
        Command::BindTexture { image, .. } => is_usable(
            images,
            image,
            ImageLayout::ShaderReadOnlyOptimal,
        ),
        Command::EndRendering
        | Command::SetArea(_)
        | Command::BindPipeline(_)
        | Command::Draw { .. } => true,
    }
}

/// The images after a command.
pub open spec fn images_after(images: Map<u64, ImageState>, command: Command) -> Map<u64, ImageState> {
    match command {
        Command::Barrier(barrier) => images.insert(barrier.image, state_after(barrier)),
        _ => images,
    }
}

/// What a list of commands does to the images, or `None` if one of them is not valid when it is
/// executed.
pub open spec fn run(
    images: Map<u64, ImageState>,
    commands: Seq<Command>,
    queue_family: u32,
) -> Option<Map<u64, ImageState>>
    decreases commands.len(),
{
    if commands.len() == 0 {
        Some(images)
    } else {
        match run(images, commands.drop_last(), queue_family) {
            Some(images) => if command_fits(images, commands.last(), queue_family) {
                Some(images_after(images, commands.last()))
            } else {
                None
            },
            None => None,
        }
    }
}

/// One more command.
pub proof fn lemma_run_push(
    images: Map<u64, ImageState>,
    commands: Seq<Command>,
    command: Command,
    queue_family: u32,
)
    ensures
        run(images, commands.push(command), queue_family) == match run(
            images,
            commands,
            queue_family,
        ) {
            Some(images) => if command_fits(images, command, queue_family) {
                Some(images_after(images, command))
            } else {
                None
            },
            None => None,
        },
{
    assert(commands.push(command).drop_last() =~= commands);
}

/// How an image is brought into a transfer-capable state and back.
#[derive(Debug, Clone, Copy, PartialEq, Eq, Structural)]
pub struct TransferState {
    pub foreign: bool,
    pub layout: ImageLayout,
}

impl TransferState {
    /// The layout of the image during the transfer.
    pub open spec fn during(self, write: bool) -> ImageLayout {
        if self.foreign || self.layout == ImageLayout::General {
            ImageLayout::General
        } else if write {
            ImageLayout::TransferDstOptimal
        } else {
            ImageLayout::TransferSrcOptimal
        }
    }

    /// The layout of the image during the transfer.
    pub fn transfer_layout(&self, write: bool) -> (layout: ImageLayout)
        ensures
            layout == self.during(write),
    {
        if self.foreign || self.layout == ImageLayout::General {
            ImageLayout::General
        } else if write {
            ImageLayout::TransferDstOptimal
        } else {
            ImageLayout::TransferSrcOptimal
        }
    }

    /// The layout of the image after the transfer: what it was before, or that of the transfer
    /// if it had no contents.
    pub open spec fn afterwards(self, write: bool) -> ImageLayout {
        if self.foreign {
            ImageLayout::General
        } else if self.layout == ImageLayout::Undefined {
            self.during(write)
        } else {
            self.layout
        }
    }
}

/// The access of a transfer.
pub open spec fn transfer_access(write: bool) -> u64 {
    if write {
        ACCESS_TRANSFER_WRITE
    } else {
        ACCESS_TRANSFER_READ
    }
}

/// The barrier that makes an image ready for a transfer.
pub open spec fn prepare_barrier(
    queue_family: u32,
    image: u64,
    state: TransferState,
    write: bool,
) -> ImageBarrier {
    if state.foreign {
        ownership_barrier(
            queue_family,
            true,
            image,
            ImageLayout::General,
            ImageLayout::General,
            STAGE_TRANSFER,
            transfer_access(write),
        )
    } else {
        ImageBarrier {
            image,
            old_layout: state.layout,
            new_layout: state.during(write),
            src_stage: STAGE_ALL_COMMANDS,
            src_access: ACCESS_MEMORY,
            dst_stage: STAGE_TRANSFER,
            dst_access: transfer_access(write),
            src_family: 0,
            dst_family: 0,
        }
    }
}

/// The barrier that brings an image back after a transfer, if one is needed.
pub open spec fn restore_barrier(
    queue_family: u32,
    image: u64,
    state: TransferState,
    write: bool,
) -> Option<ImageBarrier> {
    if state.foreign {
        Some(
            ownership_barrier(
                queue_family,
                false,
                image,
                ImageLayout::General,
                ImageLayout::General,
                STAGE_TRANSFER,
                transfer_access(write),
            ),
        )
    } else if state.afterwards(write) != state.during(write) {
        Some(
            ImageBarrier {
                image,
                old_layout: state.during(write),
                new_layout: state.afterwards(write),
                src_stage: STAGE_TRANSFER,
                src_access: transfer_access(write),
                dst_stage: STAGE_ALL_COMMANDS,
                dst_access: ACCESS_MEMORY,
                src_family: 0,
                dst_family: 0,
            },
        )
    } else {
        None
    }
}

/// Makes an image ready for a transfer.
pub fn transfer_prepare(
    commands: &mut Vec<Command>,
    queue_family: u32,
    image: u64,
    state: &TransferState,
    write: bool,
)
    ensures
        final(commands)@ == old(commands)@.push(
            Command::Barrier(prepare_barrier(queue_family, image, *state, write)),
        ),
{
    let access: u64 = if write {
        ACCESS_TRANSFER_WRITE
    } else {
        ACCESS_TRANSFER_READ
    };
    if state.foreign {
        commands.push(
            Command::Barrier(
                foreign_barrier(
                    queue_family,
                    true,
                    image,
                    ImageLayout::General,
                    ImageLayout::General,
                    STAGE_TRANSFER,
                    access,
                ),
            ),
        );
    } else {
        commands.push(
            Command::Barrier(
                image_barrier(
                    image,
                    state.layout,
                    state.transfer_layout(write),
                    STAGE_ALL_COMMANDS,
                    ACCESS_MEMORY,
                    STAGE_TRANSFER,
                    access,
                ),
            ),
        );
    }
}

/// A list of commands, followed by a barrier if there is one.
pub open spec fn with_barrier(commands: Seq<Command>, barrier: Option<ImageBarrier>) -> Seq<Command> {
    match barrier {
        Some(barrier) => commands.push(Command::Barrier(barrier)),
        None => commands,
    }
}

/// Brings an image back after a transfer. An image without defined contents stays in the layout
/// of the transfer.
pub fn transfer_restore(
    commands: &mut Vec<Command>,
    queue_family: u32,
    image: u64,
    state: &TransferState,
    write: bool,
)
    ensures
        final(commands)@ == with_barrier(
            old(commands)@,
            restore_barrier(queue_family, image, *state, write),
        ),
{
    let access: u64 = if write {
        ACCESS_TRANSFER_WRITE
    } else {
        ACCESS_TRANSFER_READ
    };
    if state.foreign {
        commands.push(
            Command::Barrier(
                foreign_barrier(
                    queue_family,
                    false,
                    image,
                    ImageLayout::General,
                    ImageLayout::General,
                    STAGE_TRANSFER,
                    access,
                ),
            ),
        );
    } else {
        let restore_layout = if state.layout == ImageLayout::Undefined {
            state.transfer_layout(write)
        } else {
            state.layout
        };
        if restore_layout != state.transfer_layout(write) {
            commands.push(
                Command::Barrier(
                    image_barrier(
                        image,
                        state.transfer_layout(write),
                        restore_layout,
                        STAGE_TRANSFER,
                        access,
                        STAGE_ALL_COMMANDS,
                        ACCESS_MEMORY,
                    ),
                ),
            );
        }
    }
}

/// Preparing an image for a transfer is valid in the state that is tracked for it, and makes it
/// readable or writable.
pub proof fn law_prepared_for_transfer(
    images: Map<u64, ImageState>,
    queue_family: u32,
    image: u64,
    state: TransferState,
    write: bool,
)
    requires
        queue_family != QUEUE_FAMILY_FOREIGN,
        images.dom().contains(image),
        images[image] == (ImageState { layout: state.layout, foreign: state.foreign }),
        state.foreign ==> state.layout == ImageLayout::General,
    ensures
        ({
            let barrier = prepare_barrier(queue_family, image, state, write);
            &&& barrier_fits(images[image], barrier, queue_family)
            &&& is_usable(
                images_after(images, Command::Barrier(barrier)),
                image,
                state.during(write),
            )
            &&& if write {
                is_writable(state.during(write))
            } else {
                is_readable(state.during(write))
            }
        }),
{
}

/// Restoring an image after a transfer is valid, and brings it back to whoever owned it, in the
/// layout it had. Only an image without contents stays in the layout of the transfer.
pub proof fn law_restored_after_transfer(
    images: Map<u64, ImageState>,
    queue_family: u32,
    image: u64,
    state: TransferState,
    write: bool,
)
    requires
        queue_family != QUEUE_FAMILY_FOREIGN,
        is_usable(images, image, state.during(write)),
        state.layout != ImageLayout::Preinitialized,
    ensures
        ({
            let after = ImageState { layout: state.afterwards(write), foreign: state.foreign };
            match restore_barrier(queue_family, image, state, write) {
                Some(barrier) => {
                    &&& barrier_fits(images[image], barrier, queue_family)
                    &&& state_after(barrier) == after
                },
                None => images[image] == after,
            }
        }),
{
}

/// A transfer is ordered against all other work on the image: it waits for what came before, for
/// the kind of access that it needs, and what comes afterwards waits for it. An image that belongs
/// to someone else is taken over first and given back last.
pub proof fn law_transfers_are_ordered(
    queue_family: u32,
    image: u64,
    state: TransferState,
    write: bool,
)
    ensures
        ({
            let before = prepare_barrier(queue_family, image, state, write);
            let access = if write {
                ACCESS_TRANSFER_WRITE
            } else {
                ACCESS_TRANSFER_READ
            };
            &&& before.image == image
            &&& before.dst_stage == STAGE_TRANSFER && before.dst_access == access
            &&& state.foreign ==> before.src_family == QUEUE_FAMILY_FOREIGN && before.dst_family
                == queue_family
            &&& !state.foreign ==> before.src_stage == STAGE_ALL_COMMANDS && before.src_access
                == ACCESS_MEMORY && before.src_family == before.dst_family
            &&& restore_barrier(queue_family, image, state, write) matches Some(after) ==> {
                &&& after.image == image
                &&& after.src_stage == STAGE_TRANSFER && after.src_access == access
                &&& state.foreign ==> after.src_family == queue_family && after.dst_family
                    == QUEUE_FAMILY_FOREIGN
                &&& !state.foreign ==> after.dst_stage == STAGE_ALL_COMMANDS && after.dst_access
                    == ACCESS_MEMORY && after.src_family == after.dst_family
            }
            &&& state.foreign ==> restore_barrier(queue_family, image, state, write) is Some
        }),
{
}

/// Ownership moves from outside to the queue when an image is acquired, and back when it is
/// released. The side that is ours is ordered against the given stage and access.
pub proof fn law_ownership_moves(
    queue_family: u32,
    image: u64,
    old_layout: ImageLayout,
    new_layout: ImageLayout,
    stage: u64,
    access: u64,
)
    ensures
        ({
            let taken = ownership_barrier(
                queue_family,
                true,
                image,
                old_layout,
                new_layout,
                stage,
                access,
            );
            let given = ownership_barrier(
                queue_family,
                false,
                image,
                old_layout,
                new_layout,
                stage,
                access,
            );
            &&& taken.image == image && given.image == image
            &&& taken.old_layout == old_layout && given.old_layout == old_layout
            &&& taken.new_layout == new_layout && given.new_layout == new_layout
            &&& taken.src_family == QUEUE_FAMILY_FOREIGN && taken.dst_family == queue_family
            &&& given.src_family == queue_family && given.dst_family == QUEUE_FAMILY_FOREIGN
            &&& taken.dst_stage == stage && taken.dst_access == access
            &&& taken.src_stage == STAGE_NONE && taken.src_access == ACCESS_NONE
            &&& given.src_stage == stage && given.src_access == access
            &&& given.dst_stage == STAGE_NONE && given.dst_access == ACCESS_NONE
        }),
{
}

/// During a transfer an image is in the layout for that kind of access, unless it is in the general
/// layout, which serves for any. Afterwards it is back in its own layout, if it had one.
pub proof fn law_layouts_around_a_transfer(state: TransferState, write: bool)
    ensures
        write ==> is_writable(state.during(write)),
        !write ==> is_readable(state.during(write)),
        state.foreign || state.layout == ImageLayout::General ==> state.during(write)
            == ImageLayout::General,
        !state.foreign && state.layout != ImageLayout::General ==> state.during(write)
            != ImageLayout::General,
        !state.foreign && state.layout != ImageLayout::Undefined ==> state.afterwards(write)
            == state.layout,
        !state.foreign && state.layout == ImageLayout::Undefined ==> state.afterwards(write)
            == state.during(write),
        state.foreign ==> state.afterwards(write) == ImageLayout::General,
{
}

/// The layouts have different numbers: those of the API.
pub proof fn law_layout_numbers(a: ImageLayout, b: ImageLayout)
    ensures
        a.number() == b.number() ==> a == b,
        a == ImageLayout::Undefined <==> a.number() == 0,
        a == ImageLayout::General <==> a.number() == 1,
        a == ImageLayout::ColorAttachmentOptimal <==> a.number() == 2,
        a == ImageLayout::ShaderReadOnlyOptimal <==> a.number() == 5,
        a == ImageLayout::TransferSrcOptimal <==> a.number() == 6,
        a == ImageLayout::TransferDstOptimal <==> a.number() == 7,
        a == ImageLayout::Preinitialized <==> a.number() == 8,
{
}

} // verus!
