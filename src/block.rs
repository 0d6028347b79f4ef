use vstd::prelude::*;
use crate::buffer::{Cell, Style};
use crate::rect::Rect;
use ratatui::widgets::Borders as RBorders;

verus! {

/// Which edges of a block carry a border.
#[derive(Clone, Copy, Debug, PartialEq, Eq, Hash)]
pub struct Borders {
    pub top: bool,
    pub bottom: bool,
    pub left: bool,
    pub right: bool,
}

impl Borders {
    pub fn none() -> (r: Borders)
        ensures
            !r.top && !r.bottom && !r.left && !r.right,
    {
        Borders { top: false, bottom: false, left: false, right: false }
    }

    pub fn all() -> (r: Borders)
        ensures
            r.top && r.bottom && r.left && r.right,
    {
        Borders { top: true, bottom: true, left: true, right: true }
    }
}

/// A frame drawn with line characters along some edges of an area.
#[derive(Clone, Copy, Debug, PartialEq, Eq, Hash)]
pub struct Block {
    pub borders: Borders,
    pub style: Style,
}

/// The glyph a block draws at `(x, y)` of `area`: corners where two bordered
/// edges meet, then the bottom, right, top and left edges, in that order.
pub open spec fn border_glyph(b: Block, area: Rect, x: int, y: int) -> Option<char> {
    let l = x == area.x;
    let r = x == area.spec_right() - 1;
    let t = y == area.y;
    let bo = y == area.spec_bottom() - 1;
    if !area.has(x, y) {
        None
    } else if b.borders.left && b.borders.top && l && t {
        Some('┌')
    } else if b.borders.left && b.borders.bottom && l && bo {
        Some('└')
    } else if b.borders.right && b.borders.top && r && t {
        Some('┐')
    } else if b.borders.right && b.borders.bottom && r && bo {
        Some('┘')
    } else if b.borders.bottom && bo {
        Some('─')
    } else if b.borders.right && r {
        Some('│')
    } else if b.borders.top && t {
        Some('─')
    } else if b.borders.left && l {
        Some('│')
    } else {
        None
    }
}

/// What a block drawn at `area` puts at `(x, y)`.
pub open spec fn block_cell_at(b: Block, area: Rect, x: int, y: int) -> Option<Cell> {
    match border_glyph(b, area, x, y) {
        Some(c) => Some(Cell { symbol: c, style: b.style }),
        None => None,
    }
}

/// The area left inside a block's borders.
pub open spec fn spec_inner(b: Block, area: Rect) -> Rect {
    let a1 = if b.borders.left {
        Rect {
            x: min_u16(area.x + 1, area.spec_right()),
            width: if area.width > 0 {
                (area.width - 1) as u16
            } else {
                0
            },
            ..area
        }
    } else {
        area
    };
    let a2 = if b.borders.top {
        Rect {
            y: min_u16(a1.y + 1, a1.spec_bottom()),
            height: if a1.height > 0 {
                (a1.height - 1) as u16
            } else {
                0
            },
            ..a1
        }
    } else {
        a1
    };
    let a3 = if b.borders.right {
        Rect {
            width: if a2.width > 0 {
                (a2.width - 1) as u16
            } else {
                0
            },
            ..a2
        }
    } else {
        a2
    };
    if b.borders.bottom {
        Rect {
            height: if a3.height > 0 {
                (a3.height - 1) as u16
            } else {
                0
            },
            ..a3
        }
    } else {
        a3
    }
}

pub open spec fn min_u16(a: int, b: int) -> u16 {
    if a <= b {
        a as u16
    } else {
        b as u16
    }
}

/// Relies on `ratatui::widgets::Block::inner` for a block with these borders,
/// no title and no padding: each bordered edge moves one cell inwards.
#[verifier::external_body]
fn block_inner(borders: Borders, area: Rect) -> (r: Rect)
    ensures
        r == spec_inner(Block { borders, style: Style::plain() }, area),
{
    let mut flags = RBorders::NONE;
    flags.set(RBorders::TOP, borders.top);
    flags.set(RBorders::BOTTOM, borders.bottom);
    flags.set(RBorders::LEFT, borders.left);
    flags.set(RBorders::RIGHT, borders.right);
    let outer = ratatui::layout::Rect { x: area.x, y: area.y, width: area.width, height: area.height };
    let r = ratatui::widgets::Block::new().borders(flags).inner(outer);
    Rect { x: r.x, y: r.y, width: r.width, height: r.height }
}

impl Block {
    /// A block without borders.
    pub fn new() -> (r: Block)
        ensures
            r.borders == (Borders { top: false, bottom: false, left: false, right: false }),
            r.style == Style::plain(),
    {
        Block { borders: Borders::none(), style: Style::new() }
    }

    /// A block with a border on every edge.
    pub fn bordered() -> (r: Block)
        ensures
            r.borders == (Borders { top: true, bottom: true, left: true, right: true }),
            r.style == Style::plain(),
    {
        Block { borders: Borders::all(), style: Style::new() }
    }

    pub fn borders(self, borders: Borders) -> (r: Block)
        ensures
            r == (Block { borders, ..self }),
    {
        Block { borders, ..self }
    }

    pub fn style(self, style: Style) -> (r: Block)
        ensures
            r == (Block { style, ..self }),
    {
        Block { style, ..self }
    }

    /// The area left for content inside the borders.
    pub fn inner(&self, area: Rect) -> (r: Rect)
        ensures
            r == spec_inner(*self, area),
    {
        block_inner(self.borders, area)
    }

    /// The cell the block draws at `(x, y)` when placed at `area`.
    pub fn cell_at(&self, area: Rect, x: u16, y: u16) -> (r: Option<Cell>)
        ensures
            r == block_cell_at(*self, area, x as int, y as int),
    {
        let right = area.right() as u32;
        let bottom = area.bottom() as u32;
        if !(x >= area.x && (x as u32) < right && y >= area.y && (y as u32) < bottom) {
            return None;
        }
        let l = x == area.x;
        let r = x as u32 + 1 == right;
        let t = y == area.y;
        let bo = y as u32 + 1 == bottom;
        let b = self.borders;
        let glyph = if b.left && b.top && l && t {
            '┌'
        } else if b.left && b.bottom && l && bo {
            '└'
        } else if b.right && b.top && r && t {
            '┐'
        } else if b.right && b.bottom && r && bo {
            '┘'
        } else if b.bottom && bo {
            '─'
        } else if b.right && r {
            '│'
        } else if b.top && t {
            '─'
        } else if b.left && l {
            '│'
        } else {
            return None;
        };
        Some(Cell { symbol: glyph, style: self.style })
    }
}

} // verus!
