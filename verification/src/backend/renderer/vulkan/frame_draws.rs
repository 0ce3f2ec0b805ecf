//! What recorded commands draw: which rectangles, through which pipeline, from which texture and
//! with which fill.

use vstd::prelude::*;

use crate::backend::renderer::geometry::{Point, Rectangle, Size};
use crate::backend::renderer::vulkan::color_params::ColorBlendParams;
use crate::backend::renderer::vulkan::commands::{Command, Fill};
use crate::backend::renderer::vulkan::{draw, frame};

verus! {

/// A texture that is bound: its descriptor set, its image and the color parameters.
pub struct BoundTexture {
    pub set: u64,
    pub image: u64,
    pub params: Option<ColorBlendParams>,
}

/// What is bound while commands are recorded.
pub struct Bindings {
    pub pipeline: Option<u64>,
    pub texture: Option<BoundTexture>,
}

/// A rectangle that is drawn, and what is bound when it is.
pub struct Drawn {
    pub rect: Rectangle,
    pub fill: Fill,
    pub pipeline: Option<u64>,
    pub texture: Option<BoundTexture>,
}

/// What is bound after some commands.
pub open spec fn bound_by(list: Seq<Command>, before: Bindings) -> Bindings
    decreases list.len(),
{
    if list.len() == 0 {
        before
    } else {
        let now = bound_by(list.drop_last(), before);
        match list.last() {
            Command::BindPipeline(pipeline) => Bindings { pipeline: Some(pipeline), ..now },
            Command::BindTexture { set, image, params } => Bindings {
                texture: Some(BoundTexture { set, image, params }),
                ..now
            },
            _ => now,
        }
    }
}

/// What some commands draw, in their order.
pub open spec fn drawn_by(list: Seq<Command>, before: Bindings) -> Seq<Drawn>
    decreases list.len(),
{
    if list.len() == 0 {
        Seq::empty()
    } else {
        let drawn = drawn_by(list.drop_last(), before);
        let now = bound_by(list.drop_last(), before);
        match list.last() {
            Command::Draw { rect, fill } => drawn.push(
                Drawn { rect, fill, pipeline: now.pipeline, texture: now.texture },
            ),
            _ => drawn,
        }
    }
}

/// Whether a part is what the area leaves of a rectangle: it starts where the rectangle does, or
/// where the area does if that is later, and it is as long as the rectangle, or as long as the
/// area allows if that is shorter. Lengths are positive.
pub open spec fn is_part(part: Rectangle, rect: Rectangle, area: Size) -> bool {
    &&& is_part_along(part.loc.x, part.size.w, rect.loc.x, rect.size.w, area.w)
    &&& is_part_along(part.loc.y, part.size.h, rect.loc.y, rect.size.h, area.h)
}

/// [`is_part`] along one axis.
pub open spec fn is_part_along(at: i32, length: i32, start: i32, wanted: i32, limit: i32) -> bool {
    &&& 0 <= at && 0 < length && at + length <= limit && length <= wanted
    &&& at == start || (start < 0 && at == 0)
    &&& length == wanted || at + length == limit
}

/// Whether something is drawn for exactly those of the rectangles that have a part in the area,
/// in their order: that part, moved by the offset, with this fill and these bindings.
pub open spec fn draws_parts(
    drawn: Seq<Drawn>,
    rects: Seq<Rectangle>,
    area: Size,
    offset: Point,
    fill: Fill,
    bound: Bindings,
) -> bool
    decreases rects.len(),
{
    if rects.len() == 0 {
        drawn.len() == 0
    } else if exists|part: Rectangle| is_part(part, rects.last(), area) {
        &&& drawn.len() > 0
        &&& draws_parts(drawn.drop_last(), rects.drop_last(), area, offset, fill, bound)
        &&& drawn.last().fill == fill
        &&& drawn.last().pipeline == bound.pipeline
        &&& drawn.last().texture == bound.texture
        &&& exists|part: Rectangle| #[trigger]
            is_part(part, rects.last(), area) && drawn.last().rect.size == part.size
                && drawn.last().rect.loc.x == part.loc.x + offset.x && drawn.last().rect.loc.y
                == part.loc.y + offset.y
    } else {
        draws_parts(drawn, rects.drop_last(), area, offset, fill, bound)
    }
}

/// There is at most one part of a rectangle in an area, and it is the one that is drawn.
pub proof fn law_the_part_in_the_area_is_drawn(rect: Rectangle, area: Size, other: Rectangle)
    requires
        area.w >= 0,
        area.h >= 0,
    ensures
        draw::drawn_part(rect, area) matches Some(part) ==> is_part(part, rect, area),
        is_part(other, rect, area) ==> draw::drawn_part(rect, area) == Some(other),
{
    if is_part(other, rect, area) {
        let part = draw::drawn_part(rect, area)->0;
        assert(part.loc.x == other.loc.x && part.loc.y == other.loc.y);
        assert(part.size.w == other.size.w && part.size.h == other.size.h);
    }
}

proof fn lemma_bound_by(a: Seq<Command>, b: Seq<Command>, before: Bindings)
    ensures
        bound_by(a + b, before) == bound_by(b, bound_by(a, before)),
        drawn_by(a + b, before) == drawn_by(a, before) + drawn_by(b, bound_by(a, before)),
    decreases b.len(),
{
    if b.len() == 0 {
        assert(a + b =~= a);
        assert(drawn_by(a, before) + drawn_by(b, bound_by(a, before)) =~= drawn_by(a, before));
    } else {
        assert((a + b).drop_last() =~= a + b.drop_last());
        assert((a + b).last() == b.last());
        lemma_bound_by(a, b.drop_last(), before);
        assert(drawn_by(a + b, before) =~= drawn_by(a, before) + drawn_by(b, bound_by(a, before)));
    }
}

/// Drawing rectangles draws their parts in the area, with the fill, and binds nothing.
pub proof fn law_draws_draw_the_parts(
    rects: Seq<Rectangle>,
    area: Size,
    offset: Point,
    fill: Fill,
    before: Bindings,
)
    requires
        area.w >= 0,
        area.h >= 0,
        offset.x + area.w <= i32::MAX,
        offset.y + area.h <= i32::MAX,
    ensures
        bound_by(draw::draws(rects, area, offset, fill), before) == before,
        draws_parts(
            drawn_by(draw::draws(rects, area, offset, fill), before),
            rects,
            area,
            offset,
            fill,
            before,
        ),
    decreases rects.len(),
{
    if rects.len() > 0 {
        let rect = rects.last();
        let list = draw::draws(rects, area, offset, fill);
        let fewer = draw::draws(rects.drop_last(), area, offset, fill);
        law_draws_draw_the_parts(rects.drop_last(), area, offset, fill, before);
        match draw::drawn_part(rect, area) {
            Some(part) => {
                law_the_part_in_the_area_is_drawn(rect, area, part);
                assert(list.drop_last() =~= fewer);
                let drawn = drawn_by(list, before);
                assert(drawn.drop_last() =~= drawn_by(fewer, before));
                assert(is_part(part, rect, area));
            },
            None => {
                assert forall|part: Rectangle| !is_part(part, rect, area) by {
                    law_the_part_in_the_area_is_drawn(rect, area, part);
                }
            },
        }
    }
}

proof fn lemma_bind(bound: Option<u64>, pipeline: u64, texture: Option<BoundTexture>)
    ensures
        bound_by(frame::bind_commands(bound, pipeline), Bindings { pipeline: bound, texture }) == (
        Bindings { pipeline: Some(pipeline), texture }),
        drawn_by(frame::bind_commands(bound, pipeline), Bindings { pipeline: bound, texture }).len()
            == 0,
{
    let list = frame::bind_commands(bound, pipeline);
    let before = Bindings { pipeline: bound, texture };
    if list.len() > 0 {
        assert(list.drop_last() =~= Seq::<Command>::empty());
        assert(list.last() == Command::BindPipeline(pipeline));
        assert(bound_by(list.drop_last(), before) == before);
        assert(drawn_by(list.drop_last(), before) =~= Seq::<Drawn>::empty());
    }
}

/// A solid draw fills the damaged parts of its destination, and nothing else, with the color that
/// it was given, through the pipeline that it was given. Afterwards that pipeline is the one that
/// is remembered as bound.
pub proof fn law_solid_draws_fill_the_damage(
    bound: Option<u64>,
    pipeline: u64,
    dest: Rectangle,
    damage: Seq<Rectangle>,
    color: [u32; 4],
    texture: Option<BoundTexture>,
)
    requires
        dest.is_bounded(),
        dest.size.w >= 0,
        dest.size.h >= 0,
    ensures
        ({
            let list = frame::solid_commands(bound, pipeline, dest, damage, color);
            let before = Bindings { pipeline: bound, texture };
            &&& draws_parts(
                drawn_by(list, before),
                damage,
                dest.size,
                dest.loc,
                Fill::Color(color),
                Bindings { pipeline: Some(pipeline), texture },
            )
            &&& bound_by(list, before).pipeline == frame::bound_after(bound, pipeline, damage)
            &&& bound_by(list, before).texture == texture
        }),
{
    let before = Bindings { pipeline: bound, texture };
    let now = Bindings { pipeline: Some(pipeline), texture };
    if damage.len() > 0 {
        let bind = frame::bind_commands(bound, pipeline);
        let draws = draw::draws(damage, dest.size, dest.loc, Fill::Color(color));
        lemma_bind(bound, pipeline, texture);
        law_draws_draw_the_parts(damage, dest.size, dest.loc, Fill::Color(color), now);
        lemma_bound_by(bind, draws, before);
        assert(drawn_by(bind + draws, before) =~= drawn_by(draws, now));
    }
}

proof fn lemma_textured(
    bound: Option<u64>,
    pipeline: u64,
    texture: BoundTexture,
    fill: Fill,
    dest: Rectangle,
    damage: Seq<Rectangle>,
    earlier: Option<BoundTexture>,
)
    requires
        dest.size.w >= 0,
        dest.size.h >= 0,
    ensures
        ({
            let list = frame::textured_commands(
                bound,
                pipeline,
                texture.set,
                texture.image,
                texture.params,
                fill,
                dest,
                damage,
            );
            let before = Bindings { pipeline: bound, texture: earlier };
            &&& draws_parts(
                drawn_by(list, before),
                damage,
                dest.size,
                Point { x: 0, y: 0 },
                fill,
                Bindings { pipeline: Some(pipeline), texture: Some(texture) },
            )
            &&& bound_by(list, before).pipeline == frame::bound_after(bound, pipeline, damage)
        }),
{
    let before = Bindings { pipeline: bound, texture: earlier };
    let middle = Bindings { pipeline: Some(pipeline), texture: earlier };
    let now = Bindings { pipeline: Some(pipeline), texture: Some(texture) };
    if damage.len() > 0 {
        let bind = frame::bind_commands(bound, pipeline);
        let command = Command::BindTexture {
            set: texture.set,
            image: texture.image,
            params: texture.params,
        };
        let one = seq![command];
        let draws = draw::draws(damage, dest.size, Point { x: 0, y: 0 }, fill);
        lemma_bind(bound, pipeline, earlier);
        assert(one.drop_last() =~= Seq::<Command>::empty());
        assert(one.last() == command);
        assert(bound_by(one.drop_last(), middle) == middle);
        assert(bound_by(one, middle) == now);
        assert(drawn_by(one.drop_last(), middle) =~= Seq::<Drawn>::empty());
        assert(drawn_by(one, middle) =~= Seq::<Drawn>::empty());
        lemma_bound_by(bind, one, before);
        law_draws_draw_the_parts(damage, dest.size, Point { x: 0, y: 0 }, fill, now);
        lemma_bound_by(bind + one, draws, before);
        assert(drawn_by(bind + one, before) =~= Seq::<Drawn>::empty());
        assert(drawn_by(bind + one + draws, before) =~= drawn_by(draws, now));
    }
}

/// A texture draw draws the damaged parts of its destination and nothing else: first the blended
/// ones, through the blending pipeline, and then the opaque ones, through the other. All of them
/// are drawn from the texture that it was given, with the color parameters that it was given, and
/// filled as it was told, at one and the same opacity.
pub proof fn law_texture_draws_fill_the_damage(
    bound: Option<u64>,
    blending: u64,
    replacing: u64,
    texture: BoundTexture,
    fill: Fill,
    dest: Rectangle,
    blended: Seq<Rectangle>,
    opaque: Seq<Rectangle>,
    earlier: Option<BoundTexture>,
)
    requires
        dest.size.w >= 0,
        dest.size.h >= 0,
    ensures
        ({
            let list = frame::texture_commands(
                bound,
                blending,
                replacing,
                texture.set,
                texture.image,
                texture.params,
                fill,
                dest,
                blended,
                opaque,
            );
            let before = Bindings { pipeline: bound, texture: earlier };
            let drawn = drawn_by(list, before);
            &&& exists|n: int|
                {
                    &&& 0 <= n <= drawn.len()
                    &&& #[trigger] draws_parts(
                        drawn.take(n),
                        blended,
                        dest.size,
                        Point { x: 0, y: 0 },
                        fill,
                        Bindings { pipeline: Some(blending), texture: Some(texture) },
                    )
                    &&& draws_parts(
                        drawn.skip(n),
                        opaque,
                        dest.size,
                        Point { x: 0, y: 0 },
                        fill,
                        Bindings { pipeline: Some(replacing), texture: Some(texture) },
                    )
                }
            &&& bound_by(list, before).pipeline == frame::bound_after(
                frame::bound_after(bound, blending, blended),
                replacing,
                opaque,
            )
        }),
{
    let before = Bindings { pipeline: bound, texture: earlier };
    let first = frame::textured_commands(
        bound,
        blending,
        texture.set,
        texture.image,
        texture.params,
        fill,
        dest,
        blended,
    );
    let now = bound_by(first, before);
    let second = frame::textured_commands(
        frame::bound_after(bound, blending, blended),
        replacing,
        texture.set,
        texture.image,
        texture.params,
        fill,
        dest,
        opaque,
    );
    lemma_textured(bound, blending, texture, fill, dest, blended, earlier);
    lemma_textured(
        frame::bound_after(bound, blending, blended),
        replacing,
        texture,
        fill,
        dest,
        opaque,
        now.texture,
    );
    lemma_bound_by(first, second, before);
    let drawn = drawn_by(first + second, before);
    let n = drawn_by(first, before).len() as int;
    assert(drawn.take(n) =~= drawn_by(first, before));
    assert(drawn.skip(n) =~= drawn_by(second, now));
}

/// Every draw among the commands of a texture draw is filled with the texture at the opacity that
/// the draw was given, in the blended part as in the opaque part, and every texture that is bound
/// is the one that the draw was given.
pub proof fn law_opacity_is_that_of_the_draw(
    bound: Option<u64>,
    blending: u64,
    replacing: u64,
    set: u64,
    image: u64,
    params: Option<ColorBlendParams>,
    alpha: u32,
    tinted: bool,
    dest: Rectangle,
    blended: Seq<Rectangle>,
    opaque: Seq<Rectangle>,
)
    ensures
        ({
            let list = frame::texture_commands(
                bound,
                blending,
                replacing,
                set,
                image,
                params,
                Fill::Texture { alpha, tinted },
                dest,
                blended,
                opaque,
            );
            forall|i: int|
                0 <= i < list.len() ==> match #[trigger] list[i] {
                    Command::Draw { rect, fill } => fill == (Fill::Texture { alpha, tinted }),
                    Command::BindTexture { set: s, image: m, params: p } => s == set && m == image && p
                        == params,
                    Command::BindPipeline(pipeline) => pipeline == blending || pipeline == replacing,
                    _ => false,
                }
        }),
{
    let fill = Fill::Texture { alpha, tinted };
    let origin = Point { x: 0, y: 0 };
    lemma_draws_have_the_fill(blended, dest.size, origin, fill);
    lemma_draws_have_the_fill(opaque, dest.size, origin, fill);
}

/// Every draw among those of rectangles has the fill that was given.
proof fn lemma_draws_have_the_fill(rects: Seq<Rectangle>, area: Size, offset: Point, fill: Fill)
    ensures
        forall|i: int|
            0 <= i < draw::draws(rects, area, offset, fill).len() ==> (#[trigger] draw::draws(
                rects,
                area,
                offset,
                fill,
            )[i] matches Command::Draw { rect, fill: f } && f == fill),
    decreases rects.len(),
{
    if rects.len() > 0 {
        lemma_draws_have_the_fill(rects.drop_last(), area, offset, fill);
    }
}

} // verus!
