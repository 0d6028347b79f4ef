use vstd::prelude::*;
use vstd::arithmetic::div_mod::lemma_fundamental_div_mod_converse;
use crate::rect::Rect;

verus! {

#[derive(Clone, Copy, Debug, PartialEq, Eq, Hash)]
pub enum Color {
    Reset,
    Black,
    Red,
    Green,
    Yellow,
    Blue,
    Magenta,
    Cyan,
    Gray,
    DarkGray,
    White,
    Indexed(u8),
    Rgb(u8, u8, u8),
}

/// The look of a cell: colors and the attributes a terminal can show.
#[derive(Clone, Copy, Debug, PartialEq, Eq, Hash)]
pub struct Style {
    pub fg: Option<Color>,
    pub bg: Option<Color>,
    pub bold: bool,
    pub dim: bool,
    pub underlined: bool,
}

impl Style {
    pub open spec fn plain() -> Style {
        Style { fg: None, bg: None, bold: false, dim: false, underlined: false }
    }

    pub fn new() -> (r: Style)
        ensures
            r == Style::plain(),
    {
        Style { fg: None, bg: None, bold: false, dim: false, underlined: false }
    }
}

/// One grid position: the glyph shown there and its style.
#[derive(Clone, Copy, Debug, PartialEq, Eq, Hash)]
pub struct Cell {
    pub symbol: char,
    pub style: Style,
}

impl Cell {
    pub open spec fn spec_blank() -> Cell {
        Cell { symbol: ' ', style: Style::plain() }
    }

    pub fn blank() -> (r: Cell)
        ensures
            r == Cell::spec_blank(),
    {
        Cell { symbol: ' ', style: Style::new() }
    }
}

/// Position in row-major order of the cell `(x, y)` of `area`.
pub open spec fn index_of(area: Rect, x: int, y: int) -> int {
    (y - area.y) * area.width + (x - area.x)
}

/// Column of the `k`-th cell of `area` in row-major order.
pub open spec fn column_of(area: Rect, k: int) -> int {
    area.x + k % (area.width as int)
}

/// Row of the `k`-th cell of `area` in row-major order.
pub open spec fn row_of(area: Rect, k: int) -> int {
    area.y + k / (area.width as int)
}

pub proof fn lemma_index_in_bounds(area: Rect, x: int, y: int)
    requires
        area.has(x, y),
    ensures
        0 <= index_of(area, x, y) < area.width * area.height,
        column_of(area, index_of(area, x, y)) == x,
        row_of(area, index_of(area, x, y)) == y,
{
    let dx = x - area.x;
    let dy = y - area.y;
    let w = area.width as int;
    let h = area.height as int;
    assert(0 <= dx < w && 0 <= dy < h);
    assert(0 <= dy * w + dx < w * h) by (nonlinear_arith)
        requires
            0 <= dx < w,
            0 <= dy < h,
    ;
    lemma_fundamental_div_mod_converse(dy * w + dx, w, dy, dx);
}

pub proof fn lemma_position_of_index(area: Rect, k: int)
    requires
        0 <= k < area.width * area.height,
    ensures
        area.x <= column_of(area, k) < area.x + area.width,
        area.y <= row_of(area, k) < area.y + area.height,
        index_of(area, column_of(area, k), row_of(area, k)) == k,
{
    let w = area.width as int;
    let h = area.height as int;
    assert(w > 0) by (nonlinear_arith)
        requires
            0 <= k < w * h,
            h >= 0,
    ;
    let q = k / w;
    let r = k % w;
    assert(k == w * q + r && 0 <= r < w) by (nonlinear_arith)
        requires
            w > 0,
            q == k / w,
            r == k % w,
    ;
    assert(0 <= q < h) by (nonlinear_arith)
        requires
            0 <= k < w * h,
            k == w * q + r,
            0 <= r < w,
    ;
    assert(q * w == w * q) by (nonlinear_arith);
}

pub proof fn lemma_cell_count_fits(area: Rect)
    ensures
        area.width * area.height <= 4294836225,
{
    let w = area.width as int;
    let h = area.height as int;
    assert(w * h <= 4294836225) by (nonlinear_arith)
        requires
            0 <= w <= 65535,
            0 <= h <= 65535,
    ;
}

/// Row-major position of the cell `(x, y)` of `area`.
pub fn flat_index(area: Rect, x: u16, y: u16) -> (k: usize)
    requires
        area.has(x as int, y as int),
    ensures
        k == index_of(area, x as int, y as int),
        k < area.width * area.height,
{
    proof {
        lemma_index_in_bounds(area, x as int, y as int);
        lemma_cell_count_fits(area);
    }
    let dy = (y - area.y) as usize;
    let dx = (x - area.x) as usize;
    let w = area.width as usize;
    assert(dy * w <= dy * w + dx);
    dy * w + dx
}

/// A grid of cells covering `area`, stored row by row.
pub struct Buffer {
    area: Rect,
    content: Vec<Cell>,
}

impl Buffer {
    pub closed spec fn spec_area(&self) -> Rect {
        self.area
    }

    pub closed spec fn cells(&self) -> Seq<Cell> {
        self.content@
    }

    pub open spec fn wf(&self) -> bool {
        self.cells().len() == self.spec_area().width * self.spec_area().height
    }

    /// The cell at `(x, y)`, for a position inside the buffer's area.
    pub open spec fn cell(&self, x: int, y: int) -> Cell {
        self.cells()[index_of(self.spec_area(), x, y)]
    }

    /// A buffer of blank cells.
    pub fn empty(area: Rect) -> (r: Buffer)
        ensures
            r.wf(),
            r.spec_area() == area,
            forall|k: int| 0 <= k < r.cells().len() ==> r.cells()[k] == Cell::spec_blank(),
            forall|x: int, y: int| area.has(x, y) ==> r.cell(x, y) == Cell::spec_blank(),
    {
        let w = area.width as usize;
        let h = area.height as usize;
        assert(w * h <= 4294836225) by (nonlinear_arith)
            requires
                w <= 65535,
                h <= 65535,
        ;
        let n: usize = w * h;
        let mut content: Vec<Cell> = Vec::with_capacity(n);
        let mut i: usize = 0;
        while i < n
            invariant
                i <= n,
                content@.len() == i,
                forall|k: int| 0 <= k < i ==> content@[k] == Cell::spec_blank(),
            decreases n - i,
        {
            content.push(Cell::blank());
            i = i + 1;
        }
        let r = Buffer { area, content };
        assert forall|x: int, y: int| area.has(x, y) implies r.cell(x, y) == Cell::spec_blank() by {
            lemma_index_in_bounds(area, x, y);
        }
        r
    }

    pub fn area(&self) -> (r: Rect)
        ensures
            r == self.spec_area(),
    {
        self.area
    }

    pub fn len(&self) -> (r: usize)
        ensures
            r == self.cells().len(),
    {
        self.content.len()
    }

    /// The cell at `(x, y)`; `None` outside the buffer's area.
    pub fn get(&self, x: u16, y: u16) -> (r: Option<Cell>)
        requires
            self.wf(),
        ensures
            self.spec_area().has(x as int, y as int) ==> r == Some(self.cell(x as int, y as int)),
            !self.spec_area().has(x as int, y as int) ==> r is None,
    {
        if x >= self.area.x && x < self.area.right() && y >= self.area.y && y
            < self.area.bottom() {
            let k = flat_index(self.area, x, y);
            Some(self.content[k])
        } else {
            None
        }
    }

    /// The `k`-th cell in row-major order.
    pub fn get_index(&self, k: usize) -> (r: Cell)
        requires
            k < self.cells().len(),
        ensures
            r == self.cells()[k as int],
    {
        self.content[k]
    }

    /// Replaces the `k`-th cell in row-major order.
    pub fn set_index(&mut self, k: usize, c: Cell)
        requires
            k < old(self).cells().len(),
        ensures
            final(self).spec_area() == old(self).spec_area(),
            final(self).cells() == old(self).cells().update(k as int, c),
    {
        self.content.set(k, c);
    }

    /// Position of the `k`-th cell in row-major order; `None` where it lies past
    /// the largest coordinate.
    pub fn position(&self, k: usize) -> (r: Option<(u16, u16)>)
        requires
            self.wf(),
            k < self.cells().len(),
        ensures
            match r {
                Some((x, y)) => {
                    &&& self.spec_area().has(x as int, y as int)
                    &&& index_of(self.spec_area(), x as int, y as int) == k
                },
                None => forall|x: int, y: int|
                    self.spec_area().has(x, y) ==> index_of(self.spec_area(), x, y) != k,
            },
    {
        let w = self.area.width as usize;
        proof {
            lemma_position_of_index(self.area, k as int);
        }
        let cx = self.area.x as usize + k % w;
        let cy = self.area.y as usize + k / w;
        if cx < self.area.right() as usize && cy < self.area.bottom() as usize {
            Some((cx as u16, cy as u16))
        } else {
            proof {
                assert forall|x: int, y: int| self.spec_area().has(x, y) implies index_of(
                    self.spec_area(),
                    x,
                    y,
                ) != k by {
                    lemma_index_in_bounds(self.area, x, y);
                }
            }
            None
        }
    }

    /// The symbols of each row, top to bottom.
    pub fn rows(&self) -> (r: Vec<Vec<char>>)
        requires
            self.wf(),
        ensures
            r@.len() == self.spec_area().height,
            forall|j: int|
                0 <= j < r@.len() ==> #[trigger] r@[j]@.len() == self.spec_area().width,
            forall|j: int, i: int|
                0 <= j < r@.len() && 0 <= i < self.spec_area().width ==> r@[j]@[i]
                    == self.cells()[j * self.spec_area().width + i].symbol,
    {
        let w = self.area.width as usize;
        let h = self.area.height as usize;
        proof {
            lemma_cell_count_fits(self.area);
        }
        let mut rows: Vec<Vec<char>> = Vec::new();
        let mut j: usize = 0;
        while j < h
            invariant
                self.wf(),
                w == self.spec_area().width,
                h == self.spec_area().height,
                j <= h,
                w * h <= 4294836225,
                rows@.len() == j,
                forall|jj: int| 0 <= jj < j ==> #[trigger] rows@[jj]@.len() == w,
                forall|jj: int, i: int|
                    0 <= jj < j && 0 <= i < w ==> rows@[jj]@[i] == self.cells()[jj * w + i].symbol,
            decreases h - j,
        {
            let mut row: Vec<char> = Vec::new();
            let mut i: usize = 0;
            while i < w
                invariant
                    self.wf(),
                    w == self.spec_area().width,
                    h == self.spec_area().height,
                    j < h,
                    i <= w,
                    w * h <= 4294836225,
                    row@.len() == i,
                    forall|ii: int| 0 <= ii < i ==> row@[ii] == self.cells()[j * w + ii].symbol,
                decreases w - i,
            {
                assert(j * w + i < w * h) by (nonlinear_arith)
                    requires
                        j < h,
                        i < w,
                ;
                assert(j * w <= j * w + i);
                row.push(self.content[j * w + i].symbol);
                i = i + 1;
            }
            rows.push(row);
            j = j + 1;
        }
        rows
    }
}

} // verus!
