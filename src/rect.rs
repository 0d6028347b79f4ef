use vstd::prelude::*;

verus! {

/// The largest coordinate a terminal position can take.
pub const COORD_MAX: u16 = 65535;

/// An axis-aligned rectangle of terminal cells.
///
/// `right` and `bottom` are the first coordinates outside the rectangle; like
/// every coordinate they saturate at `COORD_MAX`.
#[derive(Clone, Copy, Debug, PartialEq, Eq, Hash, Default)]
pub struct Rect {
    pub x: u16,
    pub y: u16,
    pub width: u16,
    pub height: u16,
}

pub open spec fn min_int(a: int, b: int) -> int {
    if a <= b {
        a
    } else {
        b
    }
}

pub open spec fn max_int(a: int, b: int) -> int {
    if a >= b {
        a
    } else {
        b
    }
}

pub open spec fn clamp_int(v: int, lo: int, hi: int) -> int {
    if v < lo {
        lo
    } else if v > hi {
        hi
    } else {
        v
    }
}

impl Rect {
    pub open spec fn spec_right(self) -> int {
        min_int(self.x + self.width, COORD_MAX as int)
    }

    pub open spec fn spec_bottom(self) -> int {
        min_int(self.y + self.height, COORD_MAX as int)
    }

    pub open spec fn spec_is_empty(self) -> bool {
        self.width == 0 || self.height == 0
    }

    /// The cell `(x, y)` lies inside the rectangle.
    pub open spec fn has(self, x: int, y: int) -> bool {
        self.x <= x < self.spec_right() && self.y <= y < self.spec_bottom()
    }

    /// The rectangle's far edges need no saturation.
    pub open spec fn in_range(self) -> bool {
        self.x + self.width <= COORD_MAX && self.y + self.height <= COORD_MAX
    }

    /// `other` lies within the edges of `self`.
    pub open spec fn covers(self, other: Rect) -> bool {
        self.x <= other.x && other.spec_right() <= self.spec_right() && self.y <= other.y
            && other.spec_bottom() <= self.spec_bottom()
    }

    pub open spec fn spec_union(self, other: Rect) -> Rect {
        let x1 = min_int(self.x as int, other.x as int);
        let y1 = min_int(self.y as int, other.y as int);
        let x2 = max_int(self.spec_right(), other.spec_right());
        let y2 = max_int(self.spec_bottom(), other.spec_bottom());
        Rect { x: x1 as u16, y: y1 as u16, width: (x2 - x1) as u16, height: (y2 - y1) as u16 }
    }

    pub open spec fn spec_intersection(self, other: Rect) -> Rect {
        let x1 = max_int(self.x as int, other.x as int);
        let y1 = max_int(self.y as int, other.y as int);
        let x2 = min_int(self.spec_right(), other.spec_right());
        let y2 = min_int(self.spec_bottom(), other.spec_bottom());
        Rect {
            x: x1 as u16,
            y: y1 as u16,
            width: if x2 > x1 {
                (x2 - x1) as u16
            } else {
                0u16
            },
            height: if y2 > y1 {
                (y2 - y1) as u16
            } else {
                0u16
            },
        }
    }

    pub open spec fn spec_intersects(self, other: Rect) -> bool {
        self.x < other.spec_right() && self.spec_right() > other.x && self.y < other.spec_bottom()
            && self.spec_bottom() > other.y
    }

    /// The rectangle cut at the largest coordinate: the same cells, with
    /// edges that need no saturation.
    pub open spec fn spec_clamped(self) -> Rect {
        Rect {
            width: min_int(self.width as int, COORD_MAX - self.x) as u16,
            height: min_int(self.height as int, COORD_MAX - self.y) as u16,
            ..self
        }
    }

    pub fn clamped(self) -> (r: Rect)
        ensures
            r == self.spec_clamped(),
            r.in_range(),
            r.x == self.x && r.y == self.y,
            r.spec_right() == self.spec_right() && r.spec_bottom() == self.spec_bottom(),
            forall|x: int, y: int| r.has(x, y) <==> self.has(x, y),
    {
        let w = if self.width <= COORD_MAX - self.x {
            self.width
        } else {
            COORD_MAX - self.x
        };
        let h = if self.height <= COORD_MAX - self.y {
            self.height
        } else {
            COORD_MAX - self.y
        };
        Rect { width: w, height: h, ..self }
    }

    pub fn new(x: u16, y: u16, width: u16, height: u16) -> (r: Rect)
        ensures
            r == (Rect { x, y, width, height }),
    {
        Rect { x, y, width, height }
    }

    pub fn zero() -> (r: Rect)
        ensures
            r == (Rect { x: 0, y: 0, width: 0, height: 0 }),
    {
        Rect { x: 0, y: 0, width: 0, height: 0 }
    }

    pub fn is_empty(self) -> (r: bool)
        ensures
            r == self.spec_is_empty(),
    {
        self.width == 0 || self.height == 0
    }

    pub fn left(self) -> (r: u16)
        ensures
            r == self.x,
    {
        self.x
    }

    pub fn top(self) -> (r: u16)
        ensures
            r == self.y,
    {
        self.y
    }

    pub fn right(self) -> (r: u16)
        ensures
            r == self.spec_right(),
    {
        self.x.saturating_add(self.width)
    }

    pub fn bottom(self) -> (r: u16)
        ensures
            r == self.spec_bottom(),
    {
        self.y.saturating_add(self.height)
    }

    /// The smallest rectangle whose edges enclose both rectangles.
    pub fn union(self, other: Rect) -> (r: Rect)
        ensures
            r == self.spec_union(other),
    {
        let x1 = if self.x <= other.x {
            self.x
        } else {
            other.x
        };
        let y1 = if self.y <= other.y {
            self.y
        } else {
            other.y
        };
        let (r1, r2) = (self.right(), other.right());
        let (b1, b2) = (self.bottom(), other.bottom());
        let x2 = if r1 >= r2 {
            r1
        } else {
            r2
        };
        let y2 = if b1 >= b2 {
            b1
        } else {
            b2
        };
        Rect { x: x1, y: y1, width: x2 - x1, height: y2 - y1 }
    }

    /// The cells that lie in both rectangles; no area when they are apart.
    pub fn intersection(self, other: Rect) -> (r: Rect)
        ensures
            r == self.spec_intersection(other),
            forall|x: int, y: int| r.has(x, y) <==> (self.has(x, y) && other.has(x, y)),
    {
        let x1 = if self.x >= other.x {
            self.x
        } else {
            other.x
        };
        let y1 = if self.y >= other.y {
            self.y
        } else {
            other.y
        };
        let (r1, r2) = (self.right(), other.right());
        let (b1, b2) = (self.bottom(), other.bottom());
        let x2 = if r1 <= r2 {
            r1
        } else {
            r2
        };
        let y2 = if b1 <= b2 {
            b1
        } else {
            b2
        };
        Rect { x: x1, y: y1, width: x2.saturating_sub(x1), height: y2.saturating_sub(y1) }
    }

    pub fn intersects(self, other: Rect) -> (r: bool)
        ensures
            r == self.spec_intersects(other),
            !r ==> forall|x: int, y: int| !(self.has(x, y) && other.has(x, y)),
    {
        self.x < other.right() && self.right() > other.x && self.y < other.bottom()
            && self.bottom() > other.y
    }
}

/// Union of rectangles is commutative.
pub proof fn lemma_union_commutative(a: Rect, b: Rect)
    ensures
        a.spec_union(b) == b.spec_union(a),
{
}

/// Union of rectangles is associative.
pub proof fn lemma_union_associative(a: Rect, b: Rect, c: Rect)
    ensures
        a.spec_union(b).spec_union(c) == a.spec_union(b.spec_union(c)),
{
}

/// A union covers both of its operands and lies within range.
pub proof fn lemma_union_covers(a: Rect, b: Rect)
    requires
        a.in_range(),
        b.in_range(),
    ensures
        a.spec_union(b).covers(a),
        a.spec_union(b).covers(b),
        a.spec_union(b).in_range(),
{
}

/// Joining a rectangle that is already covered changes nothing.
pub proof fn lemma_union_absorbs_covered(a: Rect, b: Rect)
    requires
        a.in_range(),
        a.covers(b),
    ensures
        a.spec_union(b) == a,
{
}

/// A new value for a coordinate, computed from the one it replaces.
pub trait NewValue<T> {
    spec fn spec_new_value(self, old: T) -> T;

    fn new_value(self, old: T) -> (r: T)
        ensures
            r == self.spec_new_value(old),
    ;
}

impl NewValue<u16> for u16 {
    open spec fn spec_new_value(self, old: u16) -> u16 {
        self
    }

    fn new_value(self, old: u16) -> (r: u16) {
        self
    }
}

/// Builders that replace one coordinate of a rectangle and keep the others.
pub trait RectExt: Sized {
    spec fn spec_x(self) -> u16;

    spec fn spec_y(self) -> u16;

    spec fn spec_width(self) -> u16;

    spec fn spec_height(self) -> u16;

    fn x<N: NewValue<u16>>(self, n: N) -> (r: Self)
        ensures
            r.spec_x() == n.spec_new_value(self.spec_x()),
            r.spec_y() == self.spec_y(),
            r.spec_width() == self.spec_width(),
            r.spec_height() == self.spec_height(),
    ;

    fn y<N: NewValue<u16>>(self, n: N) -> (r: Self)
        ensures
            r.spec_x() == self.spec_x(),
            r.spec_y() == n.spec_new_value(self.spec_y()),
            r.spec_width() == self.spec_width(),
            r.spec_height() == self.spec_height(),
    ;

    fn width<N: NewValue<u16>>(self, n: N) -> (r: Self)
        ensures
            r.spec_x() == self.spec_x(),
            r.spec_y() == self.spec_y(),
            r.spec_width() == n.spec_new_value(self.spec_width()),
            r.spec_height() == self.spec_height(),
    ;

    fn height<N: NewValue<u16>>(self, n: N) -> (r: Self)
        ensures
            r.spec_x() == self.spec_x(),
            r.spec_y() == self.spec_y(),
            r.spec_width() == self.spec_width(),
            r.spec_height() == n.spec_new_value(self.spec_height()),
    ;
}

impl RectExt for Rect {
    open spec fn spec_x(self) -> u16 {
        self.x
    }

    open spec fn spec_y(self) -> u16 {
        self.y
    }

    open spec fn spec_width(self) -> u16 {
        self.width
    }

    open spec fn spec_height(self) -> u16 {
        self.height
    }

    fn x<N: NewValue<u16>>(self, n: N) -> (r: Rect) {
        Rect { x: n.new_value(self.x), ..self }
    }

    fn y<N: NewValue<u16>>(self, n: N) -> (r: Rect) {
        Rect { y: n.new_value(self.y), ..self }
    }

    fn width<N: NewValue<u16>>(self, n: N) -> (r: Rect) {
        Rect { width: n.new_value(self.width), ..self }
    }

    fn height<N: NewValue<u16>>(self, n: N) -> (r: Rect) {
        Rect { height: n.new_value(self.height), ..self }
    }
}

} // verus!
