//! Positions, sizes and rectangles on the terminal's grid of cells.

use vstd::prelude::*;

verus! {

/// A position or a size, in cells.
#[derive(Clone, Copy, Debug, Default, PartialEq, Eq, Structural)]
pub struct Vec2 {
    pub x: usize,
    pub y: usize,
}

/// `a` less `b`, but no less than 0.
pub open spec fn monus(a: int, b: int) -> int {
    if a >= b {
        a - b
    } else {
        0
    }
}

pub open spec fn min(a: int, b: int) -> int {
    if a <= b {
        a
    } else {
        b
    }
}

pub open spec fn max(a: int, b: int) -> int {
    if a >= b {
        a
    } else {
        b
    }
}

/// `a` less `b`, but no less than 0.
pub fn less(a: usize, b: usize) -> (difference: usize)
    ensures
        difference == monus(a as int, b as int),
{
    if a >= b {
        a - b
    } else {
        0
    }
}

pub fn smaller(a: usize, b: usize) -> (c: usize)
    ensures
        c == min(a as int, b as int),
{
    if a <= b {
        a
    } else {
        b
    }
}

pub fn larger(a: usize, b: usize) -> (c: usize)
    ensures
        c == max(a as int, b as int),
{
    if a >= b {
        a
    } else {
        b
    }
}

/// `a` and `b` together, but no more than can be counted.
pub open spec fn capped_sum(a: int, b: int) -> int {
    min(a + b, usize::MAX as int)
}

pub fn plus(a: usize, b: usize) -> (sum: usize)
    ensures
        sum == capped_sum(a as int, b as int),
{
    if b <= usize::MAX - a {
        a + b
    } else {
        usize::MAX
    }
}

/// `a` divided by `b` and rounded up.
pub open spec fn div_up(a: int, b: int) -> int {
    (a + b - 1) / b
}

/// `position` moved by `delta`, but no less than 0.
pub open spec fn moved(position: int, delta: int) -> int {
    max(position + delta, 0)
}

impl Vec2 {
    pub fn new(x: usize, y: usize) -> (result: Vec2)
        ensures
            result == (Vec2 { x, y }),
    {
        Vec2 { x, y }
    }

    /// The origin of the grid, or an empty size.
    pub fn zero() -> (result: Vec2)
        ensures
            result == (Vec2 { x: 0, y: 0 }),
    {
        Vec2 { x: 0, y: 0 }
    }
}

/// Where content of size `content` starts when it is centred in `container`.
pub open spec fn centred(content: int, container: int) -> int {
    monus(container, content) / 2
}

pub fn centre(content: usize, container: usize) -> (offset: usize)
    ensures
        offset == centred(content as int, container as int),
{
    less(container, content) / 2
}

/// A rectangle of cells, given by its corners, both of which belong to it. It is never empty.
#[derive(Clone, Copy, Debug, PartialEq, Eq, Structural)]
pub struct Rect {
    pub top_left: Vec2,
    pub bottom_right: Vec2,
}

impl Rect {
    /// The corners are in order, and one more than the far corner can be counted.
    pub open spec fn wf(self) -> bool {
        &&& self.top_left.x <= self.bottom_right.x < usize::MAX
        &&& self.top_left.y <= self.bottom_right.y < usize::MAX
    }

    /// The rectangle with its first corner at `x` and `y`, at least one cell wide and high.
    pub open spec fn sized(x: int, y: int, width: int, height: int) -> Rect {
        Rect {
            top_left: Vec2 { x: x as usize, y: y as usize },
            bottom_right: Vec2 {
                x: (x + monus(width, 1)) as usize,
                y: (y + monus(height, 1)) as usize,
            },
        }
    }

    pub open spec fn width_spec(self) -> int {
        self.bottom_right.x - self.top_left.x + 1
    }

    pub open spec fn height_spec(self) -> int {
        self.bottom_right.y - self.top_left.y + 1
    }

    pub open spec fn holds(self, x: int, y: int) -> bool {
        &&& self.top_left.x <= x <= self.bottom_right.x
        &&& self.top_left.y <= y <= self.bottom_right.y
    }

    pub fn from_size(top_left: Vec2, size: Vec2) -> (rect: Rect)
        requires
            top_left.x + size.x < usize::MAX,
            top_left.y + size.y < usize::MAX,
        ensures
            rect.wf(),
            rect == Rect::sized(
                top_left.x as int,
                top_left.y as int,
                size.x as int,
                size.y as int,
            ),
    {
        Rect {
            top_left,
            bottom_right: Vec2 {
                x: top_left.x + less(size.x, 1),
                y: top_left.y + less(size.y, 1),
            },
        }
    }

    pub fn width(&self) -> (width: usize)
        requires
            self.wf(),
        ensures
            width == self.width_spec(),
    {
        self.bottom_right.x - self.top_left.x + 1
    }

    pub fn height(&self) -> (height: usize)
        requires
            self.wf(),
        ensures
            height == self.height_spec(),
    {
        self.bottom_right.y - self.top_left.y + 1
    }

    pub fn contains(&self, point: Vec2) -> (inside: bool)
        ensures
            inside == self.holds(point.x as int, point.y as int),
    {
        self.top_left.x <= point.x && point.x <= self.bottom_right.x && self.top_left.y <= point.y
            && point.y <= self.bottom_right.y
    }
}

/// What is taken away and what is left make up the larger of the two numbers, and the smaller and
/// the larger of two numbers are these two.
pub proof fn lemma_differences_and_extremes(a: int, b: int)
    ensures
        monus(a, b) + b == max(a, b),
        monus(a, b) >= 0,
        min(a, b) + max(a, b) == a + b,
        min(a, b) <= a <= max(a, b),
        min(a, b) <= b <= max(a, b),
{
}

/// A quotient that is rounded up is the least number of parts that are enough.
pub proof fn lemma_div_up_is_enough(a: int, b: int)
    requires
        b > 0,
    ensures
        (div_up(a, b) - 1) * b < a <= div_up(a, b) * b,
{
    let q = div_up(a, b);
    assert((q - 1) * b < a <= q * b) by (nonlinear_arith)
        requires
            b > 0,
            q == (a + b - 1) / b,
    ;
}

/// Sums are exact as long as they can be counted.
pub proof fn lemma_sums_are_exact(a: usize, b: usize)
    ensures
        a + b <= usize::MAX ==> capped_sum(a as int, b as int) == a + b,
        a + b > usize::MAX ==> capped_sum(a as int, b as int) == usize::MAX,
{
}

/// A move there and back ends where it began, unless it came to the edge.
pub proof fn lemma_moves_go_back(position: int, delta: int)
    requires
        0 <= position,
        0 <= delta,
    ensures
        moved(moved(position, delta), -delta) == position,
        moved(position, -delta) + delta >= position,
        delta <= position ==> moved(position, -delta) + delta == position,
        delta > position ==> moved(position, -delta) == 0,
{
}

/// What is centred has the same space before and behind, or one cell more behind.
pub proof fn lemma_centre_is_in_the_middle(content: int, container: int)
    requires
        0 <= content <= container,
    ensures
        ({
            let before = centred(content, container);
            let behind = container - content - before;
            0 <= before <= behind <= before + 1
        }),
{
}

/// A rectangle holds just the cells from its first corner on, as many as it is wide and high.
pub proof fn lemma_rectangle_holds_its_cells(
    x: int,
    y: int,
    width: int,
    height: int,
    at: (int, int),
)
    requires
        0 <= x,
        0 <= y,
        1 <= width,
        1 <= height,
        x + width < usize::MAX,
        y + height < usize::MAX,
    ensures
        ({
            let rect = Rect::sized(x, y, width, height);
            &&& rect.wf()
            &&& rect.holds(at.0, at.1) <==> x <= at.0 < x + width && y <= at.1 < y + height
            &&& rect.width_spec() == width
            &&& rect.height_spec() == height
        }),
{
}

} // verus!
