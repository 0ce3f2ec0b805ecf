//! What is drawn where: the rectangles of a draw, and where it can do without blending.

use vstd::prelude::*;

use crate::backend::renderer::geometry::{Point, Rectangle, Size};
use crate::backend::renderer::region;
use crate::backend::renderer::region::{copy_rects, subtract_rects};
use crate::backend::renderer::vulkan::commands::{Command, Fill};

verus! {

/// The bits of the number one, in single precision.
pub const FULL_ALPHA: u32 = 0x3F80_0000;

/// A coordinate brought into the range from zero to a limit.
pub open spec fn constrained(value: i32, limit: i32) -> int {
    if value < 0 {
        0
    } else if value > limit {
        limit as int
    } else {
        value as int
    }
}

/// A length that ends at the limit at the latest.
pub open spec fn clamped(length: i32, start: int, limit: i32) -> int {
    if length < 0 {
        0
    } else if length > limit - start {
        limit - start
    } else {
        length as int
    }
}

/// Where a rectangle is drawn that is part of an area of the given size: its location is moved
/// into the area, and its size cut off at the area's edge. `None` if nothing is left.
pub open spec fn drawn_part(rect: Rectangle, area: Size) -> Option<Rectangle> {
    let x = constrained(rect.loc.x, area.w);
    let y = constrained(rect.loc.y, area.h);
    let w = clamped(rect.size.w, x, area.w);
    let h = clamped(rect.size.h, y, area.h);
    if w <= 0 || h <= 0 {
        None
    } else {
        Some(
            Rectangle {
                loc: Point { x: x as i32, y: y as i32 },
                size: Size { w: w as i32, h: h as i32 },
            },
        )
    }
}

/// A rectangle at another place.
pub open spec fn shifted(rect: Rectangle, by: Point) -> Rectangle {
    Rectangle {
        loc: Point { x: (rect.loc.x + by.x) as i32, y: (rect.loc.y + by.y) as i32 },
        size: rect.size,
    }
}

/// The draws for some rectangles of an area.
pub open spec fn draws(rects: Seq<Rectangle>, area: Size, offset: Point, fill: Fill) -> Seq<
    Command,
>
    decreases rects.len(),
{
    if rects.len() == 0 {
        Seq::empty()
    } else {
        let before = draws(rects.drop_last(), area, offset, fill);
        match drawn_part(rects.last(), area) {
            Some(part) => before.push(Command::Draw { rect: shifted(part, offset), fill }),
            None => before,
        }
    }
}

fn constrain(value: i32, limit: i32) -> (r: i32)
    requires
        limit >= 0,
    ensures
        r == constrained(value, limit),
{
    if value < 0 {
        0
    } else if value > limit {
        limit
    } else {
        value
    }
}

fn clamp(length: i32, start: i32, limit: i32) -> (r: i32)
    requires
        0 <= start <= limit,
    ensures
        r == clamped(length, start as int, limit),
{
    if length < 0 {
        0
    } else if length > limit - start {
        limit - start
    } else {
        length
    }
}

/// Draws some rectangles of an area, one by one. The locations are counted from the area's
/// corner, which stands at the given offset.
pub fn draw_rects(
    commands: &mut Vec<Command>,
    rects: &Vec<Rectangle>,
    area: Size,
    offset: Point,
    fill: Fill,
)
    requires
        area.w >= 0,
        area.h >= 0,
        offset.x + area.w <= i32::MAX,
        offset.y + area.h <= i32::MAX,
    ensures
        final(commands)@ == old(commands)@ + draws(rects@, area, offset, fill),
{
    let ghost before = commands@;
    let ghost all = rects@;
    let mut i: usize = 0;
    assert(all.take(0) =~= Seq::<Rectangle>::empty());
    assert(before + Seq::<Command>::empty() =~= before);
    while i < rects.len()
        invariant
            i <= rects@.len(),
            all == rects@,
            area.w >= 0,
            area.h >= 0,
            offset.x + area.w <= i32::MAX,
            offset.y + area.h <= i32::MAX,
            commands@ == before + draws(all.take(i as int), area, offset, fill),
        decreases rects@.len() - i,
    {
        let rect = rects[i];
        let x: i32 = constrain(rect.loc.x, area.w);
        let y: i32 = constrain(rect.loc.y, area.h);
        let w: i32 = clamp(rect.size.w, x, area.w);
        let h: i32 = clamp(rect.size.h, y, area.h);
        proof {
            assert(all.take(i + 1).drop_last() =~= all.take(i as int));
            assert(all.take(i + 1).last() == rect);
        }
        if w > 0 && h > 0 {
            commands.push(
                Command::Draw {
                    rect: Rectangle {
                        loc: Point { x: offset.x + x, y: offset.y + y },
                        size: Size { w, h },
                    },
                    fill,
                },
            );
        }
        assert(commands@ =~= before + draws(all.take(i + 1), area, offset, fill));
        i = i + 1;
    }
    assert(all.take(i as int) =~= all);
}

/// Nothing is drawn outside of the area.
pub proof fn law_draws_stay_inside(rect: Rectangle, area: Size)
    requires
        area.w >= 0,
        area.h >= 0,
    ensures
        drawn_part(rect, area) matches Some(part) ==> part.lies_within(area),
{
}

/// A rectangle that lies within the area is drawn as it is.
pub proof fn law_inner_rectangles_are_drawn_whole(rect: Rectangle, area: Size)
    requires
        rect.lies_within(area),
    ensures
        drawn_part(rect, area) == Some(rect),
{
}

/// The damage of a draw: where it has to blend with what is there, and where not.
#[derive(Debug)]
pub struct SplitDamage {
    pub blended: Vec<Rectangle>,
    pub opaque: Vec<Rectangle>,
}

/// Whether the damage of a texture draw is split into the parts with and without blending. A
/// texture is opaque everywhere if it has no alpha channel, else in the given regions; but only
/// if it is drawn with full alpha.
pub open spec fn is_split(
    damage: Seq<Rectangle>,
    opaque_regions: Seq<Rectangle>,
    has_alpha: bool,
    alpha: u32,
    blended: Seq<Rectangle>,
    opaque: Seq<Rectangle>,
) -> bool {
    if alpha != FULL_ALPHA {
        blended == damage && opaque.len() == 0
    } else if !has_alpha {
        opaque == damage && blended.len() == 0
    } else if opaque_regions.len() == 0 {
        blended == damage && opaque.len() == 0
    } else {
        forall|x: int, y: int|
            #![trigger region::cover(damage, x, y)]
            #![trigger region::cover(blended, x, y)]
            #![trigger region::cover(opaque, x, y)]
            if region::cover(opaque_regions, x, y) > 0 {
                region::cover(opaque, x, y) == region::cover(damage, x, y) && region::cover(
                    blended,
                    x,
                    y,
                ) == 0
            } else {
                region::cover(blended, x, y) == region::cover(damage, x, y) && region::cover(
                    opaque,
                    x,
                    y,
                ) == 0
            }
    }
}

/// Splits the damage of a texture draw into the parts with and without blending.
pub fn split_damage(
    damage: &Vec<Rectangle>,
    opaque_regions: &Vec<Rectangle>,
    has_alpha: bool,
    alpha: u32,
) -> (split: SplitDamage)
    requires
        region::are_regular(damage@),
    ensures
        is_split(
            damage@,
            opaque_regions@,
            has_alpha,
            alpha,
            split.blended@,
            split.opaque@,
        ),
{
    let mut split = SplitDamage { blended: Vec::new(), opaque: Vec::new() };
    if !has_alpha && alpha == FULL_ALPHA {
        split.opaque = copy_rects(damage);
    } else if alpha != FULL_ALPHA || opaque_regions.len() == 0 {
        split.blended = copy_rects(damage);
    } else {
        let blended = subtract_rects(damage, opaque_regions);
        let opaque = subtract_rects(damage, &blended);
        proof {
            lemma_split(damage@, opaque_regions@, alpha, blended@, opaque@);
        }
        split.blended = blended;
        split.opaque = opaque;
    }
    split
}

proof fn lemma_split(
    damage: Seq<Rectangle>,
    opaque_regions: Seq<Rectangle>,
    alpha: u32,
    blended: Seq<Rectangle>,
    opaque: Seq<Rectangle>,
)
    requires
        alpha == FULL_ALPHA,
        opaque_regions.len() > 0,
        forall|x: int, y: int| #[trigger]
            region::cover(blended, x, y) == if region::cover(opaque_regions, x, y) > 0 {
                0
            } else {
                region::cover(damage, x, y)
            },
        forall|x: int, y: int| #[trigger]
            region::cover(opaque, x, y) == if region::cover(blended, x, y) > 0 {
                0
            } else {
                region::cover(damage, x, y)
            },
    ensures
        is_split(damage, opaque_regions, true, alpha, blended, opaque),
{
    assert forall|x: int, y: int|
        #![trigger region::cover(damage, x, y)]
        #![trigger region::cover(blended, x, y)]
        #![trigger region::cover(opaque, x, y)]
        if region::cover(opaque_regions, x, y) > 0 {
            region::cover(opaque, x, y) == region::cover(damage, x, y) && region::cover(
                blended,
                x,
                y,
            ) == 0
        } else {
            region::cover(blended, x, y) == region::cover(damage, x, y) && region::cover(
                opaque,
                x,
                y,
            ) == 0
        } by {
        assert(region::cover(blended, x, y) == if region::cover(opaque_regions, x, y) > 0 {
            0
        } else {
            region::cover(damage, x, y)
        });
        assert(region::cover(opaque, x, y) == if region::cover(blended, x, y) > 0 {
            0
        } else {
            region::cover(damage, x, y)
        });
    }
}

/// However the damage is split, every pixel is drawn as often as it is damaged. Without blending
/// only where the texture is opaque.
pub proof fn law_split_keeps_the_damage(
    damage: Seq<Rectangle>,
    opaque_regions: Seq<Rectangle>,
    has_alpha: bool,
    alpha: u32,
    blended: Seq<Rectangle>,
    opaque: Seq<Rectangle>,
    x: int,
    y: int,
)
    requires
        is_split(damage, opaque_regions, has_alpha, alpha, blended, opaque),
    ensures
        region::cover(blended, x, y) + region::cover(opaque, x, y) == region::cover(damage, x, y),
        region::cover(opaque, x, y) > 0 ==> alpha == FULL_ALPHA && (!has_alpha || region::cover(
            opaque_regions,
            x,
            y,
        ) > 0),
{
}

/// What is known to be opaque is not blended: with full opacity nothing is blended of a texture
/// without alpha, nor inside of the opaque regions of one with alpha. With less, everything is.
pub proof fn law_opaque_parts_are_not_blended(
    damage: Seq<Rectangle>,
    opaque_regions: Seq<Rectangle>,
    has_alpha: bool,
    alpha: u32,
    blended: Seq<Rectangle>,
    opaque: Seq<Rectangle>,
    x: int,
    y: int,
)
    requires
        is_split(damage, opaque_regions, has_alpha, alpha, blended, opaque),
    ensures
        alpha == FULL_ALPHA && (!has_alpha || region::cover(opaque_regions, x, y) > 0)
            ==> region::cover(blended, x, y) == 0 && region::cover(opaque, x, y) == region::cover(
            damage,
            x,
            y,
        ),
        alpha != FULL_ALPHA || (has_alpha && region::cover(opaque_regions, x, y) == 0)
            ==> region::cover(opaque, x, y) == 0 && region::cover(blended, x, y) == region::cover(
            damage,
            x,
            y,
        ),
{
    assert(region::cover(damage, x, y) >= 0);
}

} // verus!
