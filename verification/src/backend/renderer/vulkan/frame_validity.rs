//! Frames are valid: whatever is drawn in them, their commands find every image with the right
//! owner and in the right layout, and leave it so that it can be used again.

use vstd::prelude::*;

use crate::backend::renderer::geometry::{Point, Rectangle, Size};
use crate::backend::renderer::vulkan::color_params::ColorBlendParams;
use crate::backend::renderer::vulkan::commands;
use crate::backend::renderer::vulkan::commands::{
    Command, Fill, ImageLayout, ImageState, TextureFilter, QUEUE_FAMILY_FOREIGN,
};
use crate::backend::renderer::vulkan::draw;
use crate::backend::renderer::vulkan::frame;
use crate::backend::renderer::vulkan::texture::VulkanTarget;

verus! {

impl VulkanTarget {
    /// The state of the target's image between frames.
    pub open spec fn image_state(self) -> ImageState {
        match self {
            VulkanTarget::Dmabuf(buffer) => ImageState {
                layout: if buffer.transitioned {
                    ImageLayout::General
                } else {
                    ImageLayout::Preinitialized
                },
                foreign: true,
            },
            VulkanTarget::Texture(texture) => ImageState {
                layout: texture.layout,
                foreign: false,
            },
        }
    }
}

/// The state of an imported texture between frames.
pub open spec fn imported_state() -> ImageState {
    ImageState { layout: ImageLayout::General, foreign: true }
}

/// The frame so far: the barriers before it, and what was recorded.
pub open spec fn frame_so_far(
    foreign: Seq<u64>,
    target: VulkanTarget,
    initial_layout: ImageLayout,
    recorded: Seq<Command>,
    queue_family: u32,
) -> Seq<Command> {
    frame::acquire_commands(foreign, target, initial_layout, queue_family) + recorded
}

/// Whether a frame is valid so far, starting from the given images: all its commands are, and
/// after them its target can be rendered into, and the imported textures be sampled.
pub open spec fn is_valid_frame(
    images: Map<u64, ImageState>,
    foreign: Seq<u64>,
    target: VulkanTarget,
    initial_layout: ImageLayout,
    recorded: Seq<Command>,
    queue_family: u32,
) -> bool {
    let now = commands::run(
        images,
        frame_so_far(foreign, target, initial_layout, recorded, queue_family),
        queue_family,
    );
    &&& now is Some
    &&& commands::is_usable(now->0, target.target_image(), target.layout_while_rendering())
    &&& forall|i: int|
        0 <= i < foreign.len() ==> commands::is_usable(
            now->0,
            #[trigger] foreign[i],
            ImageLayout::ShaderReadOnlyOptimal,
        )
}

/// Whether a command concerns an image.
pub open spec fn touches(command: Command, image: u64) -> bool {
    match command {
        Command::Barrier(barrier) => barrier.image == image,
        Command::Blit { src_image, dst_image, .. } => src_image == image || dst_image == image,
        Command::CopyImageToBuffer { image: other, .. } => other == image,
        Command::CopyBufferToImage { image: other, .. } => other == image,
        Command::BeginRendering { image: other, .. } => other == image,
        Command::BindTexture { image: other, .. } => other == image,
        _ => false,
    }
}

/// Whether none of some commands concerns an image.
pub open spec fn leaves_alone(list: Seq<Command>, image: u64) -> bool {
    forall|i: int| 0 <= i < list.len() ==> !touches(#[trigger] list[i], image)
}

/// Running one list after another.
proof fn lemma_run_concat(
    images: Map<u64, ImageState>,
    first: Seq<Command>,
    second: Seq<Command>,
    queue_family: u32,
)
    ensures
        commands::run(images, first + second, queue_family) == match commands::run(
            images,
            first,
            queue_family,
        ) {
            Some(between) => commands::run(between, second, queue_family),
            None => None,
        },
    decreases second.len(),
{
    if second.len() == 0 {
        assert(first + second =~= first);
    } else {
        assert((first + second).drop_last() =~= first + second.drop_last());
        lemma_run_concat(images, first, second.drop_last(), queue_family);
    }
}

/// Commands that leave an image alone do the same in whatever state it is.
proof fn lemma_untouched(
    images: Map<u64, ImageState>,
    list: Seq<Command>,
    image: u64,
    state: ImageState,
    queue_family: u32,
)
    requires
        leaves_alone(list, image),
        commands::run(images, list, queue_family) is Some,
    ensures
        commands::run(images.insert(image, state), list, queue_family) == Some(
            commands::run(images, list, queue_family)->0.insert(image, state),
        ),
    decreases list.len(),
{
    if list.len() > 0 {
        let rest = list.drop_last();
        assert forall|i: int| 0 <= i < rest.len() implies !touches(#[trigger] rest[i], image) by {
            assert(rest[i] == list[i]);
        }
        lemma_untouched(images, rest, image, state, queue_family);
        let before = commands::run(images, rest, queue_family)->0;
        let last = list[list.len() - 1];
        assert(!touches(last, image));
        if let Command::Barrier(barrier) = last {
            let after = commands::state_after(barrier);
            assert(before.insert(image, state).insert(barrier.image, after) =~= before.insert(
                barrier.image,
                after,
            ).insert(image, state));
        }
    }
}

/// Whether a command changes nothing and is always valid.
pub open spec fn is_neutral(command: Command) -> bool {
    command is BindPipeline || command is Draw || command is SetArea || command is EndRendering
}

/// Commands that change nothing.
proof fn lemma_neutral(images: Map<u64, ImageState>, list: Seq<Command>, queue_family: u32)
    requires
        forall|i: int| 0 <= i < list.len() ==> is_neutral(#[trigger] list[i]),
    ensures
        commands::run(images, list, queue_family) == Some(images),
    decreases list.len(),
{
    if list.len() > 0 {
        let rest = list.drop_last();
        assert forall|i: int| 0 <= i < rest.len() implies is_neutral(#[trigger] rest[i]) by {
            assert(rest[i] == list[i]);
        }
        lemma_neutral(images, rest, queue_family);
        assert(is_neutral(list[list.len() - 1]));
    }
}

/// Drawing changes nothing.
pub proof fn lemma_draws_are_neutral(
    rects: Seq<Rectangle>,
    area: Size,
    offset: Point,
    fill: Fill,
)
    ensures
        forall|i: int|
            0 <= i < draw::draws(rects, area, offset, fill).len() ==> is_neutral(
                #[trigger] draw::draws(rects, area, offset, fill)[i],
            ),
    decreases rects.len(),
{
    if rects.len() > 0 {
        let before = draw::draws(rects.drop_last(), area, offset, fill);
        let list = draw::draws(rects, area, offset, fill);
        lemma_draws_are_neutral(rects.drop_last(), area, offset, fill);
        assert forall|i: int| 0 <= i < list.len() implies is_neutral(#[trigger] list[i]) by {
            if i < before.len() {
                assert(list[i] == before[i]);
            }
        }
    }
}

/// Images that are taken over: readable, and ours.
pub open spec fn taken_over(images: Map<u64, ImageState>, foreign: Seq<u64>) -> Map<u64, ImageState>
    decreases foreign.len(),
{
    if foreign.len() == 0 {
        images
    } else {
        taken_over(images, foreign.drop_last()).insert(
            foreign.last(),
            ImageState { layout: ImageLayout::ShaderReadOnlyOptimal, foreign: false },
        )
    }
}

proof fn lemma_taken_over(images: Map<u64, ImageState>, foreign: Seq<u64>, image: u64)
    ensures
        foreign.contains(image) ==> commands::is_usable(
            taken_over(images, foreign),
            image,
            ImageLayout::ShaderReadOnlyOptimal,
        ),
        !foreign.contains(image) ==> taken_over(images, foreign).contains_key(image)
            == images.contains_key(image) && taken_over(images, foreign)[image] == images[image],
    decreases foreign.len(),
{
    if foreign.len() > 0 {
        let rest = foreign.drop_last();
        lemma_taken_over(images, rest, image);
        assert(foreign =~= rest.push(foreign.last()));
        if foreign.contains(image) && image != foreign.last() {
            let k = foreign.index_of(image);
            assert(rest[k] == image);
        }
        if rest.contains(image) {
            let k = rest.index_of(image);
            assert(foreign[k] == image);
        }
    }
}

/// The barriers that take over imported textures are valid.
proof fn lemma_acquire_textures(
    images: Map<u64, ImageState>,
    foreign: Seq<u64>,
    queue_family: u32,
)
    requires
        queue_family != QUEUE_FAMILY_FOREIGN,
        foreign.no_duplicates(),
        forall|i: int|
            0 <= i < foreign.len() ==> images.contains_key(#[trigger] foreign[i])
                && images[foreign[i]] == imported_state(),
    ensures
        commands::run(images, frame::texture_barriers(foreign, true, queue_family), queue_family)
            == Some(taken_over(images, foreign)),
    decreases foreign.len(),
{
    let list = frame::texture_barriers(foreign, true, queue_family);
    if foreign.len() > 0 {
        let rest = foreign.drop_last();
        let image = foreign.last();
        assert forall|i: int| 0 <= i < rest.len() implies images.contains_key(#[trigger] rest[i])
            && images[rest[i]] == imported_state() by {
            assert(rest[i] == foreign[i]);
        }
        lemma_acquire_textures(images, rest, queue_family);
        assert(list.drop_last() =~= frame::texture_barriers(rest, true, queue_family));
        assert(!rest.contains(image)) by {
            if rest.contains(image) {
                let k = rest.index_of(image);
                assert(foreign[k] == foreign[foreign.len() - 1]);
            }
        }
        lemma_taken_over(images, rest, image);
        assert(foreign[foreign.len() - 1] == image);
    }
}

/// The states after some textures were given back.
pub open spec fn given_back(images: Map<u64, ImageState>, foreign: Seq<u64>) -> Map<u64, ImageState>
    decreases foreign.len(),
{
    if foreign.len() == 0 {
        images
    } else {
        given_back(images, foreign.drop_last()).insert(foreign.last(), imported_state())
    }
}

proof fn lemma_given_back(images: Map<u64, ImageState>, foreign: Seq<u64>, image: u64)
    ensures
        foreign.contains(image) ==> given_back(images, foreign).contains_key(image) && given_back(
            images,
            foreign,
        )[image] == imported_state(),
        !foreign.contains(image) ==> given_back(images, foreign).contains_key(image)
            == images.contains_key(image) && given_back(images, foreign)[image] == images[image],
    decreases foreign.len(),
{
    if foreign.len() > 0 {
        let rest = foreign.drop_last();
        lemma_given_back(images, rest, image);
        assert(foreign =~= rest.push(foreign.last()));
        if foreign.contains(image) && image != foreign.last() {
            let k = foreign.index_of(image);
            assert(rest[k] == image);
        }
        if rest.contains(image) {
            let k = rest.index_of(image);
            assert(foreign[k] == image);
        }
    }
}

/// The barriers that give imported textures back are valid.
proof fn lemma_release_textures(
    images: Map<u64, ImageState>,
    foreign: Seq<u64>,
    queue_family: u32,
)
    requires
        queue_family != QUEUE_FAMILY_FOREIGN,
        foreign.no_duplicates(),
        forall|i: int|
            0 <= i < foreign.len() ==> commands::is_usable(
                images,
                #[trigger] foreign[i],
                ImageLayout::ShaderReadOnlyOptimal,
            ),
    ensures
        commands::run(images, frame::texture_barriers(foreign, false, queue_family), queue_family)
            == Some(given_back(images, foreign)),
    decreases foreign.len(),
{
    let list = frame::texture_barriers(foreign, false, queue_family);
    if foreign.len() > 0 {
        let rest = foreign.drop_last();
        let image = foreign.last();
        assert forall|i: int| 0 <= i < rest.len() implies commands::is_usable(
            images,
            #[trigger] rest[i],
            ImageLayout::ShaderReadOnlyOptimal,
        ) by {
            assert(rest[i] == foreign[i]);
        }
        lemma_release_textures(images, rest, queue_family);
        assert(list.drop_last() =~= frame::texture_barriers(rest, false, queue_family));
        assert(!rest.contains(image)) by {
            if rest.contains(image) {
                let k = rest.index_of(image);
                assert(foreign[k] == foreign[foreign.len() - 1]);
            }
        }
        lemma_given_back(images, rest, image);
        assert(foreign[foreign.len() - 1] == image);
    }
}

/// A frame starts valid, if its target is in the state that is tracked for it.
pub proof fn law_frames_start_valid(
    images: Map<u64, ImageState>,
    target: VulkanTarget,
    size: Size,
    queue_family: u32,
)
    requires
        queue_family != QUEUE_FAMILY_FOREIGN,
        images.contains_key(target.target_image()),
        images[target.target_image()] == target.image_state(),
    ensures
        is_valid_frame(
            images,
            Seq::empty(),
            target,
            target.transfer().layout,
            seq![Command::SetArea(size), frame::begin_command(target, size)],
            queue_family,
        ),
{
    let layout = target.transfer().layout;
    let recorded = seq![Command::SetArea(size), frame::begin_command(target, size)];
    let none = Seq::<Command>::empty();
    let barrier = Command::Barrier(frame::target_acquire_barrier(target, layout, queue_family));
    let c1 = none.push(barrier);
    let c2 = c1.push(Command::SetArea(size));
    let c3 = c2.push(frame::begin_command(target, size));
    commands::lemma_run_push(images, none, barrier, queue_family);
    commands::lemma_run_push(images, c1, Command::SetArea(size), queue_family);
    commands::lemma_run_push(images, c2, frame::begin_command(target, size), queue_family);
    assert(frame::texture_barriers(Seq::empty(), true, queue_family) =~= none);
    assert(frame_so_far(Seq::empty(), target, layout, recorded, queue_family) =~= c3);
}

/// What the commands of a frame were, and one more list of them.
proof fn lemma_recorded_more(
    images: Map<u64, ImageState>,
    foreign: Seq<u64>,
    target: VulkanTarget,
    initial_layout: ImageLayout,
    recorded: Seq<Command>,
    more: Seq<Command>,
    queue_family: u32,
)
    requires
        commands::run(
            images,
            frame_so_far(foreign, target, initial_layout, recorded, queue_family),
            queue_family,
        ) is Some,
    ensures
        commands::run(
            images,
            frame_so_far(foreign, target, initial_layout, recorded + more, queue_family),
            queue_family,
        ) == commands::run(
            commands::run(
                images,
                frame_so_far(foreign, target, initial_layout, recorded, queue_family),
                queue_family,
            )->0,
            more,
            queue_family,
        ),
{
    let so_far = frame_so_far(foreign, target, initial_layout, recorded, queue_family);
    assert(frame_so_far(foreign, target, initial_layout, recorded + more, queue_family) =~= so_far
        + more);
    lemma_run_concat(images, so_far, more, queue_family);
}

/// Filling rectangles with a color keeps a frame valid.
pub proof fn law_solid_draws_keep_frames_valid(
    images: Map<u64, ImageState>,
    foreign: Seq<u64>,
    target: VulkanTarget,
    initial_layout: ImageLayout,
    recorded: Seq<Command>,
    queue_family: u32,
    bound: Option<u64>,
    pipeline: u64,
    dest: Rectangle,
    damage: Seq<Rectangle>,
    color: [u32; 4],
)
    requires
        is_valid_frame(images, foreign, target, initial_layout, recorded, queue_family),
    ensures
        is_valid_frame(
            images,
            foreign,
            target,
            initial_layout,
            recorded + frame::solid_commands(bound, pipeline, dest, damage, color),
            queue_family,
        ),
{
    let more = frame::solid_commands(bound, pipeline, dest, damage, color);
    let now = commands::run(
        images,
        frame_so_far(foreign, target, initial_layout, recorded, queue_family),
        queue_family,
    )->0;
    lemma_draws_are_neutral(damage, dest.size, dest.loc, Fill::Color(color));
    assert forall|i: int| 0 <= i < more.len() implies is_neutral(#[trigger] more[i]) by {
        let bind = frame::bind_commands(bound, pipeline);
        let list = draw::draws(damage, dest.size, dest.loc, Fill::Color(color));
        if i >= bind.len() {
            assert(more[i] == list[i - bind.len()]);
        }
    }
    lemma_neutral(now, more, queue_family);
    lemma_recorded_more(images, foreign, target, initial_layout, recorded, more, queue_family);
}

/// Drawing a readable texture changes nothing.
proof fn lemma_textured(
    images: Map<u64, ImageState>,
    bound: Option<u64>,
    pipeline: u64,
    set: u64,
    image: u64,
    params: Option<ColorBlendParams>,
    fill: Fill,
    dest: Rectangle,
    damage: Seq<Rectangle>,
    queue_family: u32,
)
    requires
        commands::is_usable(images, image, ImageLayout::ShaderReadOnlyOptimal),
    ensures
        commands::run(
            images,
            frame::textured_commands(bound, pipeline, set, image, params, fill, dest, damage),
            queue_family,
        ) == Some(images),
{
    if damage.len() > 0 {
        let bind = frame::bind_commands(bound, pipeline);
        let texture = Command::BindTexture { set, image, params };
        let list = draw::draws(damage, dest.size, Point { x: 0, y: 0 }, fill);
        lemma_neutral(images, bind, queue_family);
        commands::lemma_run_push(images, bind, texture, queue_family);
        lemma_draws_are_neutral(damage, dest.size, Point { x: 0, y: 0 }, fill);
        lemma_neutral(images, list, queue_family);
        lemma_run_concat(images, bind.push(texture), list, queue_family);
        assert(bind.push(texture) =~= bind + seq![texture]);
    }
}

/// Drawing a texture keeps a frame valid. An imported texture is taken over for the frame, once;
/// it must not be used otherwise in the frame. A texture of the renderer has to be readable.
pub proof fn law_texture_draws_keep_frames_valid(
    images: Map<u64, ImageState>,
    foreign: Seq<u64>,
    target: VulkanTarget,
    initial_layout: ImageLayout,
    recorded: Seq<Command>,
    queue_family: u32,
    imported: bool,
    image: u64,
    bound: Option<u64>,
    blending: u64,
    replacing: u64,
    set: u64,
    params: Option<ColorBlendParams>,
    fill: Fill,
    dest: Rectangle,
    blended: Seq<Rectangle>,
    opaque: Seq<Rectangle>,
)
    requires
        queue_family != QUEUE_FAMILY_FOREIGN,
        is_valid_frame(images, foreign, target, initial_layout, recorded, queue_family),
        foreign.no_duplicates(),
        forall|i: int|
            0 <= i < foreign.len() ==> images.contains_key(#[trigger] foreign[i])
                && images[foreign[i]] == imported_state(),
        imported ==> {
            &&& image != target.target_image()
            &&& images.contains_key(image)
            &&& images[image] == imported_state()
            &&& foreign.contains(image) || leaves_alone(recorded, image)
        },
        !imported ==> commands::is_usable(
            commands::run(
                images,
                frame_so_far(foreign, target, initial_layout, recorded, queue_family),
                queue_family,
            )->0,
            image,
            ImageLayout::ShaderReadOnlyOptimal,
        ),
    ensures
        ({
            let all = if imported {
                frame::with_image(foreign, image)
            } else {
                foreign
            };
            &&& all.no_duplicates()
            &&& is_valid_frame(
                images,
                all,
                target,
                initial_layout,
                recorded + frame::texture_commands(
                    bound,
                    blending,
                    replacing,
                    set,
                    image,
                    params,
                    fill,
                    dest,
                    blended,
                    opaque,
                ),
                queue_family,
            )
        }),
{
    let all = if imported {
        frame::with_image(foreign, image)
    } else {
        foreign
    };
    if all != foreign {
        lemma_one_more_texture(
            images,
            foreign,
            target,
            initial_layout,
            recorded,
            queue_family,
            image,
        );
    } else if imported {
        let k = foreign.index_of(image);
        assert(foreign[k] == image);
    }
    if imported && all != foreign {
        assert(all[all.len() - 1] == image);
    }
    let so_far = frame_so_far(all, target, initial_layout, recorded, queue_family);
    let now = commands::run(images, so_far, queue_family)->0;
    assert(commands::is_usable(now, image, ImageLayout::ShaderReadOnlyOptimal));
    let first = frame::textured_commands(bound, blending, set, image, params, fill, dest, blended);
    let second = frame::textured_commands(
        frame::bound_after(bound, blending, blended),
        replacing,
        set,
        image,
        params,
        fill,
        dest,
        opaque,
    );
    lemma_textured(now, bound, blending, set, image, params, fill, dest, blended, queue_family);
    lemma_textured(
        now,
        frame::bound_after(bound, blending, blended),
        replacing,
        set,
        image,
        params,
        fill,
        dest,
        opaque,
        queue_family,
    );
    lemma_run_concat(now, first, second, queue_family);
    lemma_recorded_more(
        images,
        all,
        target,
        initial_layout,
        recorded,
        first + second,
        queue_family,
    );
}

/// A frame stays valid when one more texture is taken over before it.
proof fn lemma_one_more_texture(
    images: Map<u64, ImageState>,
    foreign: Seq<u64>,
    target: VulkanTarget,
    initial_layout: ImageLayout,
    recorded: Seq<Command>,
    queue_family: u32,
    image: u64,
)
    requires
        queue_family != QUEUE_FAMILY_FOREIGN,
        is_valid_frame(images, foreign, target, initial_layout, recorded, queue_family),
        foreign.no_duplicates(),
        forall|i: int|
            0 <= i < foreign.len() ==> images.contains_key(#[trigger] foreign[i])
                && images[foreign[i]] == imported_state(),
        image != target.target_image(),
        images.contains_key(image),
        images[image] == imported_state(),
        !foreign.contains(image),
        leaves_alone(recorded, image),
    ensures
        foreign.push(image).no_duplicates(),
        is_valid_frame(
            images,
            foreign.push(image),
            target,
            initial_layout,
            recorded,
            queue_family,
        ),
{
    let all = foreign.push(image);
    let barriers = frame::texture_barriers(foreign, true, queue_family);
    let acquire = Command::Barrier(frame::texture_acquire_barrier(image, queue_family));
    let of_target = Command::Barrier(
        frame::target_acquire_barrier(target, initial_layout, queue_family),
    );
    let rest = seq![of_target] + recorded;
    let readable = ImageState { layout: ImageLayout::ShaderReadOnlyOptimal, foreign: false };
    let mine = taken_over(images, foreign);

    lemma_acquire_textures(images, foreign, queue_family);
    lemma_taken_over(images, foreign, image);
    assert(frame_so_far(foreign, target, initial_layout, recorded, queue_family) =~= barriers
        + rest);
    lemma_run_concat(images, barriers, rest, queue_family);
    let now = commands::run(mine, rest, queue_family)->0;

    assert forall|i: int| 0 <= i < rest.len() implies !touches(#[trigger] rest[i], image) by {
        if i > 0 {
            assert(rest[i] == recorded[i - 1]);
        }
    }
    lemma_untouched(mine, rest, image, readable, queue_family);

    assert(frame::texture_barriers(all, true, queue_family) =~= barriers.push(acquire));
    assert(frame_so_far(all, target, initial_layout, recorded, queue_family) =~= barriers.push(
        acquire,
    ) + rest);
    commands::lemma_run_push(images, barriers, acquire, queue_family);
    lemma_run_concat(images, barriers.push(acquire), rest, queue_family);
    assert(commands::run(
        images,
        frame_so_far(all, target, initial_layout, recorded, queue_family),
        queue_family,
    ) == Some(now.insert(image, readable)));
    assert forall|i: int| 0 <= i < all.len() implies commands::is_usable(
        now.insert(image, readable),
        #[trigger] all[i],
        ImageLayout::ShaderReadOnlyOptimal,
    ) by {
        if i < foreign.len() {
            assert(all[i] == foreign[i]);
        }
    }
}

/// A blit between the target of a frame and another one keeps the frame valid, if the other
/// target is in the state that is tracked for it. It is left with its owner and in its layout;
/// only if it had no contents it stays in the layout of the transfer. No other image changes.
pub proof fn law_blits_keep_frames_valid(
    images: Map<u64, ImageState>,
    foreign: Seq<u64>,
    target: VulkanTarget,
    initial_layout: ImageLayout,
    recorded: Seq<Command>,
    queue_family: u32,
    other: VulkanTarget,
    src: Rectangle,
    dst: Rectangle,
    filter: TextureFilter,
    to_other: bool,
    size: Size,
)
    requires
        queue_family != QUEUE_FAMILY_FOREIGN,
        is_valid_frame(images, foreign, target, initial_layout, recorded, queue_family),
        other.target_image() != target.target_image(),
        !foreign.contains(other.target_image()),
        ({
            let now = commands::run(
                images,
                frame_so_far(foreign, target, initial_layout, recorded, queue_family),
                queue_family,
            )->0;
            &&& now.contains_key(other.target_image())
            &&& now[other.target_image()] == (ImageState {
                layout: other.transfer().layout,
                foreign: other.transfer().foreign,
            })
        }),
        other.transfer().layout != ImageLayout::Preinitialized,
    ensures
        ({
            let now = commands::run(
                images,
                frame_so_far(foreign, target, initial_layout, recorded, queue_family),
                queue_family,
            )->0;
            let more = frame::frame_blit_commands(
                target,
                other,
                src,
                dst,
                filter,
                to_other,
                size,
                queue_family,
            );
            let then = commands::run(
                images,
                frame_so_far(foreign, target, initial_layout, recorded + more, queue_family),
                queue_family,
            )->0;
            &&& is_valid_frame(
                images,
                foreign,
                target,
                initial_layout,
                recorded + more,
                queue_family,
            )
            &&& then[other.target_image()] == (ImageState {
                layout: other.transfer().afterwards(to_other),
                foreign: other.transfer().foreign,
            })
            &&& forall|i: u64|
                #![trigger then[i]]
                now.contains_key(i) && i != other.target_image() ==> then[i] == now[i]
        }),
{
    let now = commands::run(
        images,
        frame_so_far(foreign, target, initial_layout, recorded, queue_family),
        queue_family,
    )->0;
    let image = target.target_image();
    let other_image = other.target_image();
    let state = other.transfer();
    let layout = target.layout_while_rendering();
    let during = frame::bound_transfer_layout(target, !to_other);
    let none = Seq::<Command>::empty();
    let k1 = Command::EndRendering;
    let k2 = Command::Barrier(frame::bound_prepare_barrier(target, !to_other));
    let b3 = commands::prepare_barrier(queue_family, other_image, state, to_other);
    let k3 = Command::Barrier(b3);
    let k4 = frame::frame_blit_command(target, other, src, dst, filter, to_other);
    let k5 = Command::Barrier(frame::bound_restore_barrier(target, !to_other));
    let k7 = frame::begin_command(target, size);
    let k8 = Command::SetArea(size);
    let c1 = none.push(k1);
    let c2 = c1.push(k2);
    let c3 = c2.push(k3);
    let c4 = c3.push(k4);
    let c5 = c4.push(k5);
    let restore = commands::restore_barrier(queue_family, other_image, state, to_other);
    let c6 = commands::with_barrier(c5, restore);
    let c7 = c6.push(k7);
    let c8 = c7.push(k8);
    let i2 = now.insert(image, ImageState { layout: during, foreign: false });
    let i3 = i2.insert(other_image, commands::state_after(b3));
    let i5 = i3.insert(image, ImageState { layout, foreign: false });
    commands::lemma_run_push(now, none, k1, queue_family);
    commands::lemma_run_push(now, c1, k2, queue_family);
    assert(commands::run(now, c2, queue_family) == Some(i2));
    commands::law_prepared_for_transfer(i2, queue_family, other_image, state, to_other);
    commands::lemma_run_push(now, c2, k3, queue_family);
    assert(commands::run(now, c3, queue_family) == Some(i3));
    commands::lemma_run_push(now, c3, k4, queue_family);
    assert(commands::run(now, c4, queue_family) == Some(i3));
    commands::lemma_run_push(now, c4, k5, queue_family);
    assert(commands::run(now, c5, queue_family) == Some(i5));
    commands::law_restored_after_transfer(i5, queue_family, other_image, state, to_other);
    let i6 = match restore {
        Some(barrier) => i5.insert(other_image, commands::state_after(barrier)),
        None => i5,
    };
    if let Some(barrier) = restore {
        commands::lemma_run_push(now, c5, Command::Barrier(barrier), queue_family);
    }
    assert(commands::run(now, c6, queue_family) == Some(i6));
    commands::lemma_run_push(now, c6, k7, queue_family);
    commands::lemma_run_push(now, c7, k8, queue_family);
    assert(commands::run(now, c8, queue_family) == Some(i6));
    let more = frame::frame_blit_commands(
        target,
        other,
        src,
        dst,
        filter,
        to_other,
        size,
        queue_family,
    );
    assert(c5 =~= seq![k1, k2, k3, k4, k5]);
    assert(more =~= c8);
    lemma_recorded_more(images, foreign, target, initial_layout, recorded, more, queue_family);
    assert forall|i: int| 0 <= i < foreign.len() implies commands::is_usable(
        i6,
        #[trigger] foreign[i],
        ImageLayout::ShaderReadOnlyOptimal,
    ) by {
        assert(foreign.contains(foreign[i]));
        if foreign[i] == image {
            assert(commands::is_usable(now, foreign[i], ImageLayout::ShaderReadOnlyOptimal));
        }
    }
}

/// A valid frame ends valid: the imported textures are back with their owners, in the state in
/// which the next frame takes them over, and the target is in the state that is tracked for it.
/// No other image changes at the end.
pub proof fn law_frames_end_valid(
    images: Map<u64, ImageState>,
    foreign: Seq<u64>,
    target: VulkanTarget,
    initial_layout: ImageLayout,
    recorded: Seq<Command>,
    queue_family: u32,
)
    requires
        queue_family != QUEUE_FAMILY_FOREIGN,
        is_valid_frame(images, foreign, target, initial_layout, recorded, queue_family),
        foreign.no_duplicates(),
        !foreign.contains(target.target_image()),
    ensures
        ({
            let so_far = frame_so_far(foreign, target, initial_layout, recorded, queue_family);
            let now = commands::run(images, so_far, queue_family)->0;
            let end = commands::run(
                images,
                so_far + frame::release_commands(foreign, target, queue_family),
                queue_family,
            );
            &&& end is Some
            &&& end->0[target.target_image()] == target.acquired().rendered().image_state()
            &&& forall|i: int|
                0 <= i < foreign.len() ==> end->0[#[trigger] foreign[i]] == imported_state()
            &&& forall|i: u64|
                #![trigger end->0[i]]
                now.contains_key(i) && i != target.target_image() && !foreign.contains(i)
                    ==> end->0[i] == now[i]
        }),
{
    let so_far = frame_so_far(foreign, target, initial_layout, recorded, queue_family);
    let now = commands::run(images, so_far, queue_family)->0;
    let barriers = frame::texture_barriers(foreign, false, queue_family);
    let of_target = Command::Barrier(frame::target_release_barrier(target, queue_family));
    let release = frame::release_commands(foreign, target, queue_family);
    let begin = seq![Command::EndRendering];
    lemma_neutral(now, begin, queue_family);
    lemma_release_textures(now, foreign, queue_family);
    lemma_run_concat(now, begin, barriers, queue_family);
    let back = given_back(now, foreign);
    lemma_given_back(now, foreign, target.target_image());
    assert(commands::run(now, begin + barriers, queue_family) == Some(back));
    commands::lemma_run_push(now, begin + barriers, of_target, queue_family);
    assert(release =~= (begin + barriers).push(of_target));
    lemma_run_concat(images, so_far, release, queue_family);
    let end = commands::run(images, so_far + release, queue_family)->0;
    assert forall|i: int| 0 <= i < foreign.len() implies end[#[trigger] foreign[i]]
        == imported_state() by {
        assert(foreign.contains(foreign[i]));
        lemma_given_back(now, foreign, foreign[i]);
    }
    assert forall|i: u64|
        #![trigger end[i]]
        now.contains_key(i) && i != target.target_image() && !foreign.contains(
            i,
        ) implies end[i] == now[i] by {
        lemma_given_back(now, foreign, i);
    }
}

} // verus!
