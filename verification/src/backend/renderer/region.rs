//! Regions: lists of rectangles, and the pixels they cover.

use vstd::prelude::*;

use crate::backend::renderer::geometry::{Point, Rectangle, Size};

verus! {

/// How many of the rectangles cover a pixel.
pub open spec fn cover(rects: Seq<Rectangle>, x: int, y: int) -> nat
    decreases rects.len(),
{
    if rects.len() == 0 {
        0
    } else {
        cover(rects.drop_last(), x, y) + if rects.last().has(x, y) {
            1nat
        } else {
            0
        }
    }
}

/// Whether the rectangles have no negative size, and their corners can be represented.
pub open spec fn are_regular(rects: Seq<Rectangle>) -> bool {
    forall|i: int| 0 <= i < rects.len() ==> is_regular(#[trigger] rects[i])
}

/// Whether a rectangle has no negative size, and its corners can be represented.
pub open spec fn is_regular(rect: Rectangle) -> bool {
    rect.is_bounded() && rect.size.w >= 0 && rect.size.h >= 0
}

proof fn lemma_cover_push(rects: Seq<Rectangle>, rect: Rectangle, x: int, y: int)
    ensures
        cover(rects.push(rect), x, y) == cover(rects, x, y) + if rect.has(x, y) {
            1nat
        } else {
            0
        },
{
    assert(rects.push(rect).drop_last() =~= rects);
}

proof fn lemma_cover_concat(a: Seq<Rectangle>, b: Seq<Rectangle>, x: int, y: int)
    ensures
        cover(a + b, x, y) == cover(a, x, y) + cover(b, x, y),
    decreases b.len(),
{
    if b.len() == 0 {
        assert(a + b =~= a);
    } else {
        assert((a + b).drop_last() =~= a + b.drop_last());
        lemma_cover_concat(a, b.drop_last(), x, y);
    }
}

fn push_part(parts: &mut Vec<Rectangle>, x: i32, y: i32, w: i32, h: i32)
    requires
        w >= 0,
        h >= 0,
        x + w <= i32::MAX,
        y + h <= i32::MAX,
        are_regular(old(parts)@),
    ensures
        are_regular(final(parts)@),
        forall|px: int, py: int| #[trigger]
            cover(final(parts)@, px, py) == cover(old(parts)@, px, py) + if x <= px < x + w && y
                <= py < y + h {
                1nat
            } else {
                0
            },
{
    if w > 0 && h > 0 {
        let ghost before = parts@;
        let rect = Rectangle { loc: Point { x, y }, size: Size { w, h } };
        parts.push(rect);
        proof {
            assert forall|px: int, py: int| #[trigger] cover(parts@, px, py) == cover(
                before,
                px,
                py,
            ) + if x <= px < x + w && y <= py < y + h {
                1nat
            } else {
                0
            } by {
                lemma_cover_push(before, rect, px, py);
            }
        }
    }
}

/// Adds the parts of a rectangle around a hole in it: above, left, right and below.
fn push_around(parts: &mut Vec<Rectangle>, rect: &Rectangle, hole: &Rectangle)
    requires
        is_regular(*rect),
        hole.is_bounded(),
        hole.size.w > 0,
        hole.size.h > 0,
        forall|x: int, y: int| #[trigger] hole.has(x, y) ==> rect.has(x, y),
        are_regular(old(parts)@),
    ensures
        are_regular(final(parts)@),
        forall|x: int, y: int| #[trigger]
            cover(final(parts)@, x, y) == cover(old(parts)@, x, y) + if rect.has(x, y) && !hole.has(
                x,
                y,
            ) {
                1nat
            } else {
                0
            },
{
    let ghost before = parts@;
    let right: i32 = rect.loc.x + rect.size.w;
    let bottom: i32 = rect.loc.y + rect.size.h;
    let hole_right: i32 = hole.loc.x + hole.size.w;
    let hole_bottom: i32 = hole.loc.y + hole.size.h;
    proof {
        assert(hole.has(hole.loc.x as int, hole.loc.y as int));
        assert(hole.has(hole_right - 1, hole_bottom - 1));
        assert(rect.loc.x <= hole.loc.x && hole_right <= right);
        assert(rect.loc.y <= hole.loc.y && hole_bottom <= bottom);
    }
    push_part(parts, rect.loc.x, rect.loc.y, rect.size.w, hole.loc.y - rect.loc.y);
    push_part(
        parts,
        rect.loc.x,
        hole.loc.y,
        hole.loc.x - rect.loc.x,
        hole.size.h,
    );
    push_part(parts, hole_right, hole.loc.y, right - hole_right, hole.size.h);
    push_part(parts, rect.loc.x, hole_bottom, rect.size.w, bottom - hole_bottom);
}

/// Takes a rectangle out of a region.
fn subtract_rect(rects: &Vec<Rectangle>, other: &Rectangle) -> (rest: Vec<Rectangle>)
    requires
        are_regular(rects@),
    ensures
        are_regular(rest@),
        forall|x: int, y: int| #[trigger]
            cover(rest@, x, y) == if other.has(x, y) {
                0
            } else {
                cover(rects@, x, y)
            },
{
    let mut kept: Vec<Rectangle> = Vec::new();
    let mut parts: Vec<Rectangle> = Vec::new();
    let ghost all = rects@;
    let mut i: usize = 0;
    while i < rects.len()
        invariant
            i <= rects@.len(),
            all == rects@,
            are_regular(all),
            are_regular(kept@),
            are_regular(parts@),
            forall|x: int, y: int|
                #![trigger cover(kept@, x, y)]
                #![trigger cover(parts@, x, y)]
                cover(kept@, x, y) + cover(parts@, x, y) == if other.has(x, y) {
                    0
                } else {
                    cover(all.take(i as int), x, y)
                },
        decreases rects@.len() - i,
    {
        let ghost kept_before = kept@;
        let ghost parts_before = parts@;
        let rect = &rects[i];
        let common = rect.intersection(other);
        match common {
            None => kept.push(*rect),
            Some(hole) => push_around(&mut parts, rect, &hole),
        }
        proof {
            assert(all.take(i + 1) =~= all.take(i as int).push(all[i as int]));
            assert forall|x: int, y: int|
                #![trigger cover(kept@, x, y)]
                #![trigger cover(parts@, x, y)]
                cover(kept@, x, y) + cover(parts@, x, y) == if other.has(x, y) {
                    0
                } else {
                    cover(all.take(i + 1), x, y)
                } by {
                lemma_cover_push(all.take(i as int), *rect, x, y);
                lemma_cover_push(kept_before, *rect, x, y);
                assert(cover(kept_before, x, y) + cover(parts_before, x, y) == if other.has(x, y) {
                    0
                } else {
                    cover(all.take(i as int), x, y)
                });
                match common {
                    None => {
                        assert(rect.has(x, y) ==> !other.has(x, y));
                    },
                    Some(hole) => {
                        assert(hole.has(x, y) <==> rect.has(x, y) && other.has(x, y));
                    },
                }
            }
        }
        i = i + 1;
    }
    assert(all.take(i as int) =~= all);
    let ghost first = kept@;
    let ghost second = parts@;
    let mut k: usize = 0;
    while k < parts.len()
        invariant
            k <= parts@.len(),
            second == parts@,
            are_regular(second),
            are_regular(kept@),
            kept@ == first + second.take(k as int),
        decreases parts@.len() - k,
    {
        kept.push(parts[k]);
        assert(second.take(k + 1) =~= second.take(k as int).push(second[k as int]));
        k = k + 1;
    }
    assert(second.take(k as int) =~= second);
    proof {
        assert forall|x: int, y: int| #[trigger] cover(kept@, x, y) == if other.has(x, y) {
            0
        } else {
            cover(all, x, y)
        } by {
            lemma_cover_concat(first, second, x, y);
        }
    }
    kept
}

/// Takes the rectangles of one region out of another one. What remains of overlapping
/// rectangles overlaps as before.
pub fn subtract_rects(rects: &Vec<Rectangle>, others: &Vec<Rectangle>) -> (rest: Vec<Rectangle>)
    requires
        are_regular(rects@),
    ensures
        are_regular(rest@),
        forall|x: int, y: int| #[trigger]
            cover(rest@, x, y) == if cover(others@, x, y) > 0 {
                0
            } else {
                cover(rects@, x, y)
            },
{
    let mut rest: Vec<Rectangle> = copy_rects(rects);
    let ghost all = others@;
    let mut i: usize = 0;
    while i < others.len()
        invariant
            i <= others@.len(),
            all == others@,
            are_regular(rest@),
            forall|x: int, y: int| #[trigger]
                cover(rest@, x, y) == if cover(all.take(i as int), x, y) > 0 {
                    0
                } else {
                    cover(rects@, x, y)
                },
        decreases others@.len() - i,
    {
        let ghost before = rest@;
        rest = subtract_rect(&rest, &others[i]);
        proof {
            assert(all.take(i + 1) =~= all.take(i as int).push(all[i as int]));
            assert forall|x: int, y: int| #[trigger]
                cover(rest@, x, y) == if cover(all.take(i + 1), x, y) > 0 {
                    0
                } else {
                    cover(rects@, x, y)
                } by {
                lemma_cover_push(all.take(i as int), all[i as int], x, y);
                assert(cover(before, x, y) == if cover(all.take(i as int), x, y) > 0 {
                    0
                } else {
                    cover(rects@, x, y)
                });
            }
        }
        i = i + 1;
    }
    assert(all.take(i as int) =~= all);
    rest
}

/// A copy of a region.
pub fn copy_rects(rects: &Vec<Rectangle>) -> (copy: Vec<Rectangle>)
    ensures
        copy@ == rects@,
{
    let mut copy: Vec<Rectangle> = Vec::new();
    let mut i: usize = 0;
    while i < rects.len()
        invariant
            i <= rects@.len(),
            copy@ == rects@.take(i as int),
        decreases rects@.len() - i,
    {
        copy.push(rects[i]);
        assert(rects@.take(i + 1) =~= rects@.take(i as int).push(rects@[i as int]));
        i = i + 1;
    }
    assert(rects@.take(i as int) =~= rects@);
    copy
}

/// A rectangle covers its own pixels once, no rectangle covers nothing, and lists of rectangles that
/// are joined cover what each of them does.
pub proof fn law_cover_counts_rectangles(
    a: Seq<Rectangle>,
    b: Seq<Rectangle>,
    rect: Rectangle,
    x: int,
    y: int,
)
    ensures
        cover(Seq::empty(), x, y) == 0,
        cover(seq![rect], x, y) == (if 0 <= x - rect.loc.x < rect.size.w && 0 <= y - rect.loc.y
            < rect.size.h {
            1nat
        } else {
            0
        }),
        cover(a + b, x, y) == cover(a, x, y) + cover(b, x, y),
{
    lemma_cover_concat(a, b, x, y);
    lemma_cover_push(Seq::empty(), rect, x, y);
    assert(Seq::empty().push(rect) =~= seq![rect]);
}

/// A pixel is covered exactly if it lies in one of the rectangles.
pub proof fn law_covered_by_one_of_them(rects: Seq<Rectangle>, x: int, y: int)
    ensures
        cover(rects, x, y) > 0 <==> exists|i: int|
            0 <= i < rects.len() && (#[trigger] rects[i]).has(x, y),
    decreases rects.len(),
{
    if rects.len() > 0 {
        let rest = rects.drop_last();
        law_covered_by_one_of_them(rest, x, y);
        if cover(rects, x, y) > 0 {
            if rects.last().has(x, y) {
                assert(rects[rects.len() - 1].has(x, y));
            } else {
                let i = choose|i: int| 0 <= i < rest.len() && (#[trigger] rest[i]).has(x, y);
                assert(rects[i].has(x, y));
            }
        }
        if exists|i: int| 0 <= i < rects.len() && (#[trigger] rects[i]).has(x, y) {
            let i = choose|i: int| 0 <= i < rects.len() && (#[trigger] rects[i]).has(x, y);
            if i < rest.len() {
                assert(rest[i].has(x, y));
            }
        }
    }
}

/// What is left of a region has exactly those of its pixels that lie in none of the rectangles taken
/// away from it.
pub proof fn law_subtract_rects(
    rects: &Vec<Rectangle>,
    others: &Vec<Rectangle>,
    rest: Vec<Rectangle>,
    copy: Vec<Rectangle>,
    x: int,
    y: int,
)
    requires
        call_ensures(subtract_rects, (rects, others), rest),
        call_ensures(copy_rects, (rects,), copy),
    ensures
        (exists|i: int| 0 <= i < rest@.len() && (#[trigger] rest@[i]).has(x, y)) <==> {
            &&& exists|i: int| 0 <= i < rects@.len() && (#[trigger] rects@[i]).has(x, y)
            &&& !exists|i: int| 0 <= i < others@.len() && (#[trigger] others@[i]).has(x, y)
        },
        forall|i: int|
            0 <= i < rest@.len() ==> {
                &&& (#[trigger] rest@[i]).size.w >= 0 && rest@[i].size.h >= 0
                &&& rest@[i].loc.x + rest@[i].size.w <= i32::MAX
                &&& rest@[i].loc.y + rest@[i].size.h <= i32::MAX
            },
        copy@ == rects@,
{
    law_covered_by_one_of_them(rects@, x, y);
    law_covered_by_one_of_them(others@, x, y);
    law_covered_by_one_of_them(rest@, x, y);
    assert forall|i: int| 0 <= i < rest@.len() implies is_regular(#[trigger] rest@[i]) by {}
}

} // verus!
