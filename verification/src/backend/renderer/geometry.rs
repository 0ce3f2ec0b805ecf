//! Rectangles of pixels.

use vstd::prelude::*;

verus! {

/// A number as an unsigned one with the same bits.
pub open spec fn unsigned(value: i32) -> int {
    if value < 0 {
        value + 0x1_0000_0000
    } else {
        value as int
    }
}

/// A number as an unsigned one with the same bits.
pub fn as_unsigned(value: i32) -> (bits: u32)
    ensures
        bits == unsigned(value),
{
    if value < 0 {
        (value as i64 + 0x1_0000_0000) as u32
    } else {
        value as u32
    }
}

/// A position.
#[derive(Debug, Clone, Copy, PartialEq, Eq, Structural)]
pub struct Point {
    pub x: i32,
    pub y: i32,
}

/// A size.
#[derive(Debug, Clone, Copy, PartialEq, Eq, Structural)]
pub struct Size {
    pub w: i32,
    pub h: i32,
}

/// A rectangle: the pixels from `loc` on, `size` many in each direction.
#[derive(Debug, Clone, Copy, PartialEq, Eq, Structural)]
pub struct Rectangle {
    pub loc: Point,
    pub size: Size,
}

impl Rectangle {
    /// Whether a pixel lies in the rectangle.
    pub open spec fn has(self, x: int, y: int) -> bool {
        &&& self.loc.x <= x < self.loc.x + self.size.w
        &&& self.loc.y <= y < self.loc.y + self.size.h
    }

    /// Whether the rectangle is not empty and lies within an area of the given size.
    pub open spec fn lies_within(self, size: Size) -> bool {
        &&& self.loc.x >= 0 && self.loc.y >= 0
        &&& self.size.w > 0 && self.size.h > 0
        &&& self.loc.x + self.size.w <= size.w
        &&& self.loc.y + self.size.h <= size.h
    }

    /// Whether the corner opposite to `loc` can be represented.
    pub open spec fn is_bounded(self) -> bool {
        &&& i32::MIN <= self.loc.x + self.size.w <= i32::MAX
        &&& i32::MIN <= self.loc.y + self.size.h <= i32::MAX
    }

    /// The rectangle of the given size at the origin.
    pub fn from_size(size: Size) -> (rect: Rectangle)
        ensures
            rect == (Rectangle { loc: Point { x: 0, y: 0 }, size }),
    {
        Rectangle { loc: Point { x: 0, y: 0 }, size }
    }

    /// Whether the rectangle is not empty and lies within an area of the given size.
    pub fn is_within(&self, size: Size) -> (within: bool)
        ensures
            within == self.lies_within(size),
    {
        self.loc.x >= 0 && self.loc.y >= 0 && self.size.w > 0 && self.size.h > 0 && self.loc.x as i64
            + self.size.w as i64 <= size.w as i64 && self.loc.y as i64 + self.size.h as i64
            <= size.h as i64
    }

    /// The part that two rectangles have in common, if they overlap.
    pub fn intersection(&self, other: &Rectangle) -> (common: Option<Rectangle>)
        ensures
            match common {
                Some(common) => common.size.w > 0 && common.size.h > 0 && (self.is_bounded()
                    || other.is_bounded() ==> common.is_bounded()) && forall|x: int, y: int| #[trigger]
                    common.has(x, y) <==> self.has(x, y) && other.has(x, y),
                None => forall|x: int, y: int| #[trigger] self.has(x, y) ==> !other.has(x, y),
            },
    {
        let left: i32 = if self.loc.x > other.loc.x {
            self.loc.x
        } else {
            other.loc.x
        };
        let top: i32 = if self.loc.y > other.loc.y {
            self.loc.y
        } else {
            other.loc.y
        };
        let self_right: i64 = self.loc.x as i64 + self.size.w as i64;
        let other_right: i64 = other.loc.x as i64 + other.size.w as i64;
        let self_bottom: i64 = self.loc.y as i64 + self.size.h as i64;
        let other_bottom: i64 = other.loc.y as i64 + other.size.h as i64;
        let right: i64 = if self_right < other_right {
            self_right
        } else {
            other_right
        };
        let bottom: i64 = if self_bottom < other_bottom {
            self_bottom
        } else {
            other_bottom
        };
        if (left as i64) < right && (top as i64) < bottom {
            let w: i64 = right - left as i64;
            let h: i64 = bottom - top as i64;
            Some(
                Rectangle {
                    loc: Point { x: left, y: top },
                    size: Size { w: w as i32, h: h as i32 },
                },
            )
        } else {
            None
        }
    }
}

/// How the contents of an area are turned and flipped.
#[derive(Debug, Clone, Copy, PartialEq, Eq, Structural)]
pub enum Transform {
    Normal,
    Rotated90,
    Rotated180,
    Rotated270,
    Flipped,
    Flipped90,
    Flipped180,
    Flipped270,
}

impl Transform {
    /// Whether width and height change places.
    pub open spec fn is_sideways(self) -> bool {
        ||| self is Rotated90
        ||| self is Rotated270
        ||| self is Flipped90
        ||| self is Flipped270
    }

    /// The size of the turned area.
    pub open spec fn sized(self, size: Size) -> Size {
        if self.is_sideways() {
            Size { w: size.h, h: size.w }
        } else {
            size
        }
    }

    /// The size of the turned area.
    pub fn transform_size(&self, size: Size) -> (turned: Size)
        ensures
            turned == self.sized(size),
    {
        match self {
            Transform::Rotated90
            | Transform::Rotated270
            | Transform::Flipped90
            | Transform::Flipped270 => Size { w: size.h, h: size.w },
            _ => size,
        }
    }
}

/// A quarter turn, in either direction and flipped or not, exchanges width and height; any other
/// transform leaves them. Either way a second time undoes it.
pub proof fn law_turned_sizes(transform: Transform, size: Size)
    ensures
        transform.sized(transform.sized(size)) == size,
        match transform {
            Transform::Normal
            | Transform::Rotated180
            | Transform::Flipped
            | Transform::Flipped180 => transform.sized(size).w == size.w && transform.sized(size).h
                == size.h,
            _ => transform.sized(size).w == size.h && transform.sized(size).h == size.w,
        },
{
}

/// A size that is not negative stands for itself, and a negative one for what lies as far below
/// two to the power of 32.
pub proof fn law_unsigned_sizes(value: i32)
    ensures
        value >= 0 ==> unsigned(value) == value,
        value < 0 ==> unsigned(value) - 0x1_0000_0000 == value,
        0 <= unsigned(value) <= u32::MAX,
{
}

/// A rectangle lies within an area exactly if it has points and all of them are points of the
/// rectangle of that size at the origin.
pub proof fn law_within_an_area(rect: Rectangle, size: Size)
    ensures
        rect.lies_within(size) ==> rect.has(rect.loc.x as int, rect.loc.y as int),
        rect.lies_within(size) ==> forall|x: int, y: int| #[trigger]
            rect.has(x, y) ==> 0 <= x < size.w && 0 <= y < size.h,
        (rect.size.w > 0 && rect.size.h > 0 && forall|x: int, y: int| #[trigger]
            rect.has(x, y) ==> 0 <= x < size.w && 0 <= y < size.h) ==> rect.lies_within(size),
{
    if rect.size.w > 0 && rect.size.h > 0 && forall|x: int, y: int| #[trigger]
        rect.has(x, y) ==> 0 <= x < size.w && 0 <= y < size.h {
        assert(rect.has(rect.loc.x as int, rect.loc.y as int));
        assert(rect.has(rect.loc.x + rect.size.w - 1, rect.loc.y + rect.size.h - 1));
    }
}

/// A rectangle begins at its location and ends before the corner opposite to it, which can be
/// represented exactly if the rectangle is bounded.
pub proof fn law_points_of_a_rectangle(rect: Rectangle, x: int, y: int)
    ensures
        rect.has(x, y) <==> 0 <= x - rect.loc.x < rect.size.w && 0 <= y - rect.loc.y < rect.size.h,
        rect.is_bounded() <==> (exists|corner: Point|
            corner.x - rect.loc.x == rect.size.w && #[trigger] (corner.y - rect.loc.y)
                == rect.size.h),
{
    if rect.is_bounded() {
        let corner = Point {
            x: (rect.loc.x + rect.size.w) as i32,
            y: (rect.loc.y + rect.size.h) as i32,
        };
        assert(corner.y - rect.loc.y == rect.size.h);
    }
}

/// Two rectangles with points have a common part only if each begins before the other ends, and that
/// part begins where the later one begins and ends where the first one ends.
pub proof fn law_intersection(a: Rectangle, b: Rectangle, common: Option<Rectangle>)
    requires
        call_ensures(Rectangle::intersection, (&a, &b), common),
        a.size.w > 0 && a.size.h > 0,
        b.size.w > 0 && b.size.h > 0,
    ensures
        common is Some ==> {
            &&& a.loc.x < b.loc.x + b.size.w && b.loc.x < a.loc.x + a.size.w
            &&& a.loc.y < b.loc.y + b.size.h && b.loc.y < a.loc.y + a.size.h
        },
        common matches Some(c) ==> {
            &&& c.loc.x >= a.loc.x && c.loc.x >= b.loc.x && (c.loc.x == a.loc.x || c.loc.x
                == b.loc.x)
            &&& c.loc.y >= a.loc.y && c.loc.y >= b.loc.y && (c.loc.y == a.loc.y || c.loc.y
                == b.loc.y)
            &&& c.loc.x + c.size.w <= a.loc.x + a.size.w && c.loc.x + c.size.w <= b.loc.x
                + b.size.w
            &&& c.loc.x + c.size.w == a.loc.x + a.size.w || c.loc.x + c.size.w == b.loc.x
                + b.size.w
            &&& c.loc.y + c.size.h <= a.loc.y + a.size.h && c.loc.y + c.size.h <= b.loc.y
                + b.size.h
            &&& c.loc.y + c.size.h == a.loc.y + a.size.h || c.loc.y + c.size.h == b.loc.y
                + b.size.h
        },
{
    let left = if a.loc.x > b.loc.x { a.loc.x as int } else { b.loc.x as int };
    let top = if a.loc.y > b.loc.y { a.loc.y as int } else { b.loc.y as int };
    let right = if a.loc.x + a.size.w < b.loc.x + b.size.w {
        a.loc.x + a.size.w
    } else {
        b.loc.x + b.size.w
    };
    let bottom = if a.loc.y + a.size.h < b.loc.y + b.size.h {
        a.loc.y + a.size.h
    } else {
        b.loc.y + b.size.h
    };
    match common {
        Some(c) => {
            assert(c.has(c.loc.x as int, c.loc.y as int));
            assert(c.has(c.loc.x + c.size.w - 1, c.loc.y + c.size.h - 1));
            assert(c.has(left, top));
            assert(c.has(right - 1, bottom - 1));
        },
        None => {},
    }
}

/// Whether a rectangle lies within an area, its size after a turn, and the rectangle of a size are
/// what is answered.
pub proof fn law_answers(
    rect: Rectangle,
    size: Size,
    within: bool,
    transform: Transform,
    turned: Size,
    whole: Rectangle,
)
    requires
        call_ensures(Rectangle::is_within, (&rect, size), within),
        call_ensures(Transform::transform_size, (&transform, size), turned),
        call_ensures(Rectangle::from_size, (size,), whole),
    ensures
        within <==> rect.size.w > 0 && rect.size.h > 0 && rect.loc.x >= 0 && rect.loc.y >= 0
            && rect.loc.x <= size.w - rect.size.w && rect.loc.y <= size.h - rect.size.h,
        turned == size || (turned.w == size.h && turned.h == size.w),
        turned == size || transform is Rotated90 || transform is Rotated270 || transform is Flipped90
            || transform is Flipped270,
        whole.loc.x == 0 && whole.loc.y == 0 && whole.size == size,
{
}

} // verus!
