use vstd::prelude::*;
use crate::block::{block_cell_at, Block};
use crate::buffer::{
    column_of, index_of, lemma_index_in_bounds, lemma_position_of_index, row_of, Buffer, Cell,
};
use crate::line::{line_cell_at, Line, LineView, Span};
use crate::rect::{clamp_int, Rect};

verus! {

/// Something a store can hold and draw.
#[derive(Clone, Debug, PartialEq, Eq)]
pub enum Widget {
    Line(Line),
    Border(Block),
}

/// A widget as plain values.
pub enum WidgetView {
    Line(LineView),
    Border(Block),
}

impl View for Widget {
    type V = WidgetView;

    open spec fn view(&self) -> WidgetView {
        match self {
            Widget::Line(l) => WidgetView::Line(l@),
            Widget::Border(b) => WidgetView::Border(*b),
        }
    }
}

/// A placement as plain values: where a widget goes and what it is.
pub type PlacementView = (Rect, WidgetView);

/// What the widget placed by `p` draws at `(x, y)`, if anything.
pub open spec fn widget_cell(p: PlacementView, x: int, y: int) -> Option<Cell> {
    match p.1 {
        WidgetView::Line(l) => line_cell_at(l, p.0, x, y),
        WidgetView::Border(b) => block_cell_at(b, p.0, x, y),
    }
}

/// A widget draws only inside its own area.
pub proof fn lemma_widget_cell_inside(p: PlacementView, x: int, y: int)
    ensures
        widget_cell(p, x, y) is Some ==> p.0.has(x, y),
{
}

/// The cell at `(x, y)` once every placement is drawn in order over blank
/// cells: the last placement that draws there wins.
pub open spec fn content_cell(ps: Seq<PlacementView>, x: int, y: int) -> Cell
    decreases ps.len(),
{
    if ps.len() == 0 {
        Cell::spec_blank()
    } else {
        match widget_cell(ps.last(), x, y) {
            Some(c) => c,
            None => content_cell(ps.drop_last(), x, y),
        }
    }
}

/// Grows a bounding rectangle by one more rectangle, cut at the largest
/// coordinate; one without cells adds nothing.
pub open spec fn join(acc: Option<Rect>, r: Rect) -> Option<Rect> {
    let c = r.spec_clamped();
    if c.spec_is_empty() {
        acc
    } else {
        match acc {
            Some(u) => Some(u.spec_union(c)),
            None => Some(c),
        }
    }
}

/// The bounding rectangle of every rectangle of `rs` that has an area.
pub open spec fn union_all(rs: Seq<Rect>) -> Option<Rect>
    decreases rs.len(),
{
    if rs.len() == 0 {
        None
    } else {
        join(union_all(rs.drop_last()), rs.last())
    }
}

/// Bounding rectangle of two optional bounding rectangles.
pub open spec fn merge(a: Option<Rect>, b: Option<Rect>) -> Option<Rect> {
    match (a, b) {
        (Some(u), Some(v)) => Some(u.spec_union(v)),
        (Some(u), None) => Some(u),
        (None, v) => v,
    }
}

pub open spec fn areas(ps: Seq<PlacementView>) -> Seq<Rect> {
    ps.map_values(|p: PlacementView| p.0)
}

pub open spec fn or_zero(r: Option<Rect>) -> Rect {
    match r {
        Some(u) => u,
        None => Rect { x: 0, y: 0, width: 0, height: 0 },
    }
}

/// `area` moved down by `scroll` rows; rows that would lie above the top edge are cut off.
pub open spec fn scrolled(area: Rect, scroll: int) -> Rect {
    let y = area.y + scroll;
    Rect {
        y: clamp_int(y, 0, 65535) as u16,
        height: if y < 0 {
            clamp_int(area.height + y, 0, 65535) as u16
        } else {
            area.height
        },
        ..area
    }
}

/// The part of `viewport` below `stored`.
pub open spec fn space_below(stored: Rect, viewport: Rect) -> Rect {
    let top = clamp_int(stored.spec_bottom(), viewport.y as int, viewport.spec_bottom());
    Rect { y: top as u16, height: (viewport.spec_bottom() - top) as u16, ..viewport }
}

/// The bounding rectangle of two sequences is the bounding rectangle of their
/// two bounding rectangles.
pub proof fn lemma_union_all_append(a: Seq<Rect>, b: Seq<Rect>)
    ensures
        union_all(a + b) == merge(union_all(a), union_all(b)),
    decreases b.len(),
{
    if b.len() == 0 {
        assert(a + b =~= a);
    } else {
        assert((a + b).drop_last() =~= a + b.drop_last());
        lemma_union_all_append(a, b.drop_last());
        let ua = union_all(a);
        let ub = union_all(b.drop_last());
        let r = b.last();
        if !r.spec_is_empty() {
            match (ua, ub) {
                (Some(u), Some(v)) => {
                    crate::rect::lemma_union_associative(u, v, r);
                },
                _ => {},
            }
        }
    }
}

/// The bounding rectangle does not depend on the order in which two runs of
/// rectangles are joined.
pub proof fn lemma_union_all_order(a: Seq<Rect>, b: Seq<Rect>)
    ensures
        union_all(a + b) == union_all(b + a),
{
    lemma_union_all_append(a, b);
    lemma_union_all_append(b, a);
    match (union_all(a), union_all(b)) {
        (Some(u), Some(v)) => crate::rect::lemma_union_commutative(u, v),
        _ => {},
    }
}

/// A joined rectangle lies within range and has cells.
pub proof fn lemma_union_all_in_range(rs: Seq<Rect>)
    ensures
        union_all(rs) matches Some(u) ==> u.in_range() && !u.spec_is_empty(),
    decreases rs.len(),
{
    if rs.len() > 0 {
        lemma_union_all_in_range(rs.drop_last());
        if let Some(u) = union_all(rs.drop_last()) {
            crate::rect::lemma_union_covers(u, rs.last().spec_clamped());
        }
    }
}

/// The `i`-th rectangle of `rs` has cells.
pub open spec fn has_area(rs: Seq<Rect>, i: int) -> bool {
    0 <= i < rs.len() && !rs[i].spec_clamped().spec_is_empty()
}

/// `u` is the smallest rectangle covering every rectangle of `rs` that has
/// cells: it covers each of them, and each of its edges is an edge of one of them.
pub open spec fn is_bounding_box(u: Rect, rs: Seq<Rect>) -> bool {
    &&& forall|i: int| has_area(rs, i) ==> #[trigger] u.covers(rs[i])
    &&& exists|i: int| has_area(rs, i) && #[trigger] rs[i].x == u.x
    &&& exists|i: int| has_area(rs, i) && #[trigger] rs[i].y == u.y
    &&& exists|i: int| has_area(rs, i) && #[trigger] rs[i].spec_right() == u.spec_right()
    &&& exists|i: int| has_area(rs, i) && #[trigger] rs[i].spec_bottom() == u.spec_bottom()
}

/// The joined rectangle is exactly the bounding box of the rectangles that
/// have cells, and there is none only when no rectangle has cells.
pub proof fn lemma_union_all_is_bounding_box(rs: Seq<Rect>)
    ensures
        union_all(rs) is None <==> forall|i: int| !has_area(rs, i),
        union_all(rs) matches Some(u) ==> u.in_range() && is_bounding_box(u, rs),
    decreases rs.len(),
{
    lemma_union_all_in_range(rs);
    if rs.len() == 0 {
        return;
    }
    let init = rs.drop_last();
    let n = rs.len() - 1;
    let r = rs[n];
    let c = r.spec_clamped();
    assert(rs.last() == r);
    lemma_union_all_is_bounding_box(init);
    assert forall|i: int| 0 <= i < n implies #[trigger] has_area(rs, i) == has_area(init, i) by {
        assert(init[i] == rs[i]);
    }
    if c.spec_is_empty() {
        assert(union_all(rs) == union_all(init));
        if let Some(u) = union_all(init) {
            assert forall|i: int| has_area(rs, i) implies #[trigger] u.covers(rs[i]) by {
                assert(has_area(init, i));
                assert(init[i] == rs[i]);
            }
            let ix = choose|i: int| has_area(init, i) && #[trigger] init[i].x == u.x;
            assert(has_area(rs, ix) && rs[ix].x == u.x);
            let iy = choose|i: int| has_area(init, i) && #[trigger] init[i].y == u.y;
            assert(has_area(rs, iy) && rs[iy].y == u.y);
            let ir = choose|i: int| has_area(init, i) && #[trigger] init[i].spec_right() == u.spec_right();
            assert(has_area(rs, ir) && rs[ir].spec_right() == u.spec_right());
            let ib = choose|i: int| has_area(init, i) && #[trigger] init[i].spec_bottom() == u.spec_bottom();
            assert(has_area(rs, ib) && rs[ib].spec_bottom() == u.spec_bottom());
        } else {
            assert forall|i: int| !has_area(rs, i) by {
                if 0 <= i < n {
                    assert(!has_area(init, i));
                }
            }
        }
    } else {
        assert(has_area(rs, n));
        match union_all(init) {
            None => {
                assert(union_all(rs) == Some(c));
                assert forall|i: int| has_area(rs, i) implies #[trigger] c.covers(rs[i]) by {
                    if i < n {
                        assert(!has_area(init, i));
                    }
                }
                assert(rs[n].x == c.x && rs[n].y == c.y);
                assert(rs[n].spec_right() == c.spec_right() && rs[n].spec_bottom() == c.spec_bottom());
            },
            Some(v) => {
                let u = v.spec_union(c);
                assert(union_all(rs) == Some(u));
                crate::rect::lemma_union_covers(v, c);
                assert forall|i: int| has_area(rs, i) implies #[trigger] u.covers(rs[i]) by {
                    if i < n {
                        assert(has_area(init, i));
                        assert(init[i] == rs[i]);
                        assert(v.covers(init[i]));
                    }
                }
                let ix = choose|i: int| has_area(init, i) && #[trigger] init[i].x == v.x;
                let iy = choose|i: int| has_area(init, i) && #[trigger] init[i].y == v.y;
                let ir = choose|i: int| has_area(init, i) && #[trigger] init[i].spec_right() == v.spec_right();
                let ib = choose|i: int| has_area(init, i) && #[trigger] init[i].spec_bottom() == v.spec_bottom();
                assert(init[ix] == rs[ix] && init[iy] == rs[iy] && init[ir] == rs[ir] && init[ib] == rs[ib]);
                if v.x <= c.x {
                    assert(has_area(rs, ix) && rs[ix].x == u.x);
                } else {
                    assert(has_area(rs, n) && rs[n].x == u.x);
                }
                if v.y <= c.y {
                    assert(has_area(rs, iy) && rs[iy].y == u.y);
                } else {
                    assert(has_area(rs, n) && rs[n].y == u.y);
                }
                if v.spec_right() >= c.spec_right() {
                    assert(has_area(rs, ir) && rs[ir].spec_right() == u.spec_right());
                } else {
                    assert(has_area(rs, n) && rs[n].spec_right() == u.spec_right());
                }
                if v.spec_bottom() >= c.spec_bottom() {
                    assert(has_area(rs, ib) && rs[ib].spec_bottom() == u.spec_bottom());
                } else {
                    assert(has_area(rs, n) && rs[n].spec_bottom() == u.spec_bottom());
                }
            },
        }
    }
}

/// `r` is one of the rectangles of `b`.
pub open spec fn occurs(r: Rect, b: Seq<Rect>) -> bool {
    exists|j: int| 0 <= j < b.len() && #[trigger] b[j] == r
}

/// Each rectangle of `a` occurs in `b`.
pub open spec fn occurs_in(a: Seq<Rect>, b: Seq<Rect>) -> bool {
    forall|i: int| 0 <= i < a.len() ==> #[trigger] occurs(a[i], b)
}

/// The joined rectangle depends only on which rectangles are joined: not on
/// their order, nor on how often each is repeated.
pub proof fn lemma_union_all_same_rects(a: Seq<Rect>, b: Seq<Rect>)
    requires
        occurs_in(a, b),
        occurs_in(b, a),
    ensures
        union_all(a) == union_all(b),
{
    lemma_union_all_is_bounding_box(a);
    lemma_union_all_is_bounding_box(b);
    assert forall|i: int| has_area(a, i) implies exists|j: int| #[trigger] has_area(b, j) && b[j] == a[i] by {
        assert(occurs(a[i], b));
        let j = choose|j: int| 0 <= j < b.len() && #[trigger] b[j] == a[i];
        assert(has_area(b, j));
    }
    assert forall|j: int| has_area(b, j) implies exists|i: int| #[trigger] has_area(a, i) && a[i] == b[j] by {
        assert(occurs(b[j], a));
        let i = choose|i: int| 0 <= i < a.len() && #[trigger] a[i] == b[j];
        assert(has_area(a, i));
    }
    match (union_all(a), union_all(b)) {
        (Some(u), Some(v)) => {
            let ix = choose|i: int| has_area(a, i) && #[trigger] a[i].x == u.x;
            let jx = choose|j: int| has_area(b, j) && #[trigger] b[j].x == v.x;
            let iy = choose|i: int| has_area(a, i) && #[trigger] a[i].y == u.y;
            let jy = choose|j: int| has_area(b, j) && #[trigger] b[j].y == v.y;
            let ir = choose|i: int| has_area(a, i) && #[trigger] a[i].spec_right() == u.spec_right();
            let jr = choose|j: int| has_area(b, j) && #[trigger] b[j].spec_right() == v.spec_right();
            let ib = choose|i: int| has_area(a, i) && #[trigger] a[i].spec_bottom() == u.spec_bottom();
            let jb = choose|j: int| has_area(b, j) && #[trigger] b[j].spec_bottom() == v.spec_bottom();
            let jx2 = choose|j: int| #[trigger] has_area(b, j) && b[j] == a[ix];
            let ix2 = choose|i: int| #[trigger] has_area(a, i) && a[i] == b[jx];
            let jy2 = choose|j: int| #[trigger] has_area(b, j) && b[j] == a[iy];
            let iy2 = choose|i: int| #[trigger] has_area(a, i) && a[i] == b[jy];
            let jr2 = choose|j: int| #[trigger] has_area(b, j) && b[j] == a[ir];
            let ir2 = choose|i: int| #[trigger] has_area(a, i) && a[i] == b[jr];
            let jb2 = choose|j: int| #[trigger] has_area(b, j) && b[j] == a[ib];
            let ib2 = choose|i: int| #[trigger] has_area(a, i) && a[i] == b[jb];
            assert(v.covers(b[jx2]) && u.covers(a[ix2]));
            assert(v.covers(b[jy2]) && u.covers(a[iy2]));
            assert(v.covers(b[jr2]) && u.covers(a[ir2]));
            assert(v.covers(b[jb2]) && u.covers(a[ib2]));
            assert(u.x == v.x && u.y == v.y);
            assert(u.spec_right() == v.spec_right() && u.spec_bottom() == v.spec_bottom());
        },
        (Some(u), None) => {
            let ix = choose|i: int| has_area(a, i) && #[trigger] a[i].x == u.x;
            let j = choose|j: int| #[trigger] has_area(b, j) && b[j] == a[ix];
        },
        (None, Some(v)) => {
            let jx = choose|j: int| has_area(b, j) && #[trigger] b[j].x == v.x;
            let i = choose|i: int| #[trigger] has_area(a, i) && a[i] == b[jx];
        },
        (None, None) => {},
    }
}

/// Once rectangles are joined, adding one that their bounding rectangle
/// already covers, or one without cells, leaves the bounding rectangle unchanged.
pub proof fn lemma_covered_rect_keeps_union(rs: Seq<Rect>, r: Rect)
    requires
        r.spec_clamped().spec_is_empty() || (union_all(rs) matches Some(u) && u.covers(r)),
    ensures
        union_all(rs.push(r)) == union_all(rs),
{
    lemma_union_all_in_range(rs);
    assert(rs.push(r).drop_last() =~= rs);
    if !r.spec_clamped().spec_is_empty() {
        let u = union_all(rs)->0;
        crate::rect::lemma_union_absorbs_covered(u, r.spec_clamped());
    }
}

/// A widget that places itself into a store at the area it is offered.
pub trait Storeable: Sized {
    /// The placements the widget adds when it is stored at `area`.
    spec fn placed(&self, area: Rect) -> Seq<PlacementView>;

    fn store(self, area: Rect, store: &mut Store)
        requires
            old(store).wf(),
        ensures
            final(store).wf(),
            final(store).scroll() == old(store).scroll(),
            final(store).placements() == old(store).placements() + self.placed(area),
    ;
}

impl Storeable for Line {
    open spec fn placed(&self, area: Rect) -> Seq<PlacementView> {
        seq![(area, WidgetView::Line(self@))]
    }

    fn store(self, area: Rect, store: &mut Store) {
        let ghost before = store.placements();
        let ghost w = WidgetView::Line(self@);
        store.push(area, Widget::Line(self));
        assert(store.placements() =~= before + seq![(area, w)]);
    }
}

impl Storeable for Span {
    open spec fn placed(&self, area: Rect) -> Seq<PlacementView> {
        seq![(area, WidgetView::Line(seq![self@]))]
    }

    fn store(self, area: Rect, store: &mut Store) {
        let ghost before = store.placements();
        let ghost sv = self@;
        let line = Line { spans: vec![self] };
        assert(line@ =~= seq![sv]);
        store.push(area, Widget::Line(line));
        assert(store.placements() =~= before + seq![(area, WidgetView::Line(seq![sv]))]);
    }
}

impl Storeable for Block {
    open spec fn placed(&self, area: Rect) -> Seq<PlacementView> {
        seq![(area, WidgetView::Border(*self))]
    }

    fn store(self, area: Rect, store: &mut Store) {
        let ghost before = store.placements();
        store.push(area, Widget::Border(self));
        assert(store.placements() =~= before + seq![(area, WidgetView::Border(self))]);
    }
}

/// An accumulating compositor: widgets are placed at absolute coordinates,
/// and drawn later through a viewport that may be scrolled.
pub struct Store {
    placements: Vec<(Rect, Widget)>,
    stored_area: Option<Rect>,
    scroll_v: i32,
}

impl Store {
    /// What the store holds, in the order it was placed.
    pub closed spec fn placements(&self) -> Seq<PlacementView> {
        self.placements@.map_values(|p: (Rect, Widget)| (p.0, p.1@))
    }

    /// The bounding rectangle kept alongside the placements.
    pub closed spec fn stored(&self) -> Option<Rect> {
        self.stored_area
    }

    /// The vertical scroll offset.
    pub closed spec fn scroll(&self) -> int {
        self.scroll_v as int
    }

    pub open spec fn wf(&self) -> bool {
        self.stored() == union_all(areas(self.placements()))
    }

    /// The stored area, or a zero rectangle while nothing with an area is stored.
    pub open spec fn spec_stored_area(&self) -> Rect {
        or_zero(self.stored())
    }

    /// The content rows that a render through `viewport` shows.
    pub open spec fn window(&self, viewport: Rect) -> Rect {
        scrolled(viewport, self.scroll()).spec_intersection(self.spec_stored_area())
    }

    pub fn new() -> (r: Store)
        ensures
            r.wf(),
            r.placements() == Seq::<PlacementView>::empty(),
            r.stored() is None,
            r.scroll() == 0,
    {
        let r = Store { placements: Vec::new(), stored_area: None, scroll_v: 0 };
        assert(r.placements() =~= Seq::<PlacementView>::empty());
        r
    }

    /// Bounding rectangle of everything stored so far; a zero rectangle when empty.
    pub fn stored_area(&self) -> (r: Rect)
        requires
            self.wf(),
        ensures
            r == self.spec_stored_area(),
            r == or_zero(union_all(areas(self.placements()))),
    {
        match self.stored_area {
            Some(r) => r,
            None => Rect::zero(),
        }
    }

    /// Sets the vertical scroll offset: positive values show later rows.
    pub fn scroll_v(self, n: i32) -> (r: Store)
        ensures
            r.placements() == self.placements(),
            r.stored() == self.stored(),
            r.scroll() == n,
    {
        Store { scroll_v: n, ..self }
    }

    /// Records `widget` at `area` and grows the stored area by the cells of
    /// `area` (its part within the coordinate range).
    pub fn push(&mut self, area: Rect, widget: Widget)
        requires
            old(self).wf(),
        ensures
            final(self).wf(),
            final(self).placements() == old(self).placements().push((area, widget@)),
            final(self).stored() == join(old(self).stored(), area),
            final(self).scroll() == old(self).scroll(),
    {
        let ghost old_ps = self.placements();
        self.placements.push((area, widget));
        proof {
            assert(self.placements() =~= old_ps.push((area, widget@)));
            assert(areas(self.placements()).drop_last() =~= areas(old_ps));
        }
        let cut = area.clamped();
        if !cut.is_empty() {
            self.stored_area = match self.stored_area {
                Some(s) => Some(s.union(cut)),
                None => Some(cut),
            };
        }
    }

    /// Moves every placement of `other` into this store, after its own.
    pub fn extend(&mut self, other: Store)
        requires
            old(self).wf(),
            other.wf(),
        ensures
            final(self).wf(),
            final(self).placements() == old(self).placements() + other.placements(),
            final(self).stored() == merge(old(self).stored(), other.stored()),
            final(self).scroll() == old(self).scroll(),
    {
        let ghost old_ps = self.placements();
        let Store { placements: mut more, stored_area: other_area, .. } = other;
        self.placements.append(&mut more);
        proof {
            assert(self.placements() =~= old_ps + other.placements());
            assert(areas(self.placements()) =~= areas(old_ps) + areas(other.placements()));
            lemma_union_all_append(areas(old_ps), areas(other.placements()));
        }
        self.stored_area = match (self.stored_area, other_area) {
            (Some(r1), Some(r2)) => Some(r1.union(r2)),
            (Some(r), None) => Some(r),
            (None, r) => r,
        };
    }

    /// The part of `area` below everything stored: same columns, from the stored
    /// area's bottom edge (kept within `area`) to the bottom of `area`.
    pub fn bottom_space(&self, area: Rect) -> (r: Rect)
        requires
            self.wf(),
        ensures
            r == space_below(self.spec_stored_area(), area),
            self.spec_stored_area().spec_bottom() >= area.spec_bottom() ==> r.height == 0,
    {
        match self.stored_area {
            Some(stored_area) => bottom_space(stored_area, area),
            None => {
                let r = bottom_space(Rect::zero(), area);
                r
            },
        }
    }

    /// Draws the stored widgets into `buf` through `viewport`, moved down by
    /// `scroll_v` rows: the content cell at row `y` lands on row `y - scroll_v`
    /// of `buf`, for the content rows inside the scrolled viewport; every other
    /// cell of `buf` is left as it was.
    pub fn render(&self, viewport: Rect, buf: &mut Buffer)
        requires
            self.wf(),
            old(buf).wf(),
        ensures
            final(buf).wf(),
            final(buf).spec_area() == old(buf).spec_area(),
            forall|x: int, y: int|
                #![trigger final(buf).cell(x, y)]
                final(buf).spec_area().has(x, y) ==> final(buf).cell(x, y) == if self.window(
                    viewport,
                ).has(x, y + self.scroll()) {
                    content_cell(self.placements(), x, y + self.scroll())
                } else {
                    old(buf).cell(x, y)
                },
    {
        let stored_area = self.stored_area();
        let window = scroll_rect(viewport, self.scroll_v).intersection(stored_area);
        let mut content = Buffer::empty(window);
        let ghost ps = self.placements();
        let mut i: usize = 0;
        while i < self.placements.len()
            invariant
                ps == self.placements(),
                i <= ps.len(),
                content.wf(),
                content.spec_area() == window,
                window == self.window(viewport),
                forall|x: int, y: int|
                    #![trigger content.cell(x, y)]
                    window.has(x, y) ==> content.cell(x, y) == content_cell(ps.take(i as int), x, y),
            decreases ps.len() - i,
        {
            let ghost before = content;
            let area = self.placements[i].0;
            let ghost p = ps[i as int];
            assert(p == (area, self.placements@[i as int].1@));
            assert(ps.take(i + 1).drop_last() =~= ps.take(i as int));
            assert(ps.take(i + 1).last() == p);
            if area.intersects(window) {
                paint(&mut content, area, &self.placements[i].1);
            } else {
                assert forall|x: int, y: int|
                    #![trigger content.cell(x, y)]
                    window.has(x, y) implies content.cell(x, y) == content_cell(
                        ps.take(i + 1),
                        x,
                        y,
                    ) by {
                    lemma_widget_cell_inside(p, x, y);
                }
            }
            i = i + 1;
        }
        assert(ps.take(i as int) =~= ps);
        let ghost old_buf = *buf;
        let n = buf.len();
        let mut k: usize = 0;
        while k < n
            invariant
                n == buf.cells().len(),
                k <= n,
                buf.wf(),
                buf.spec_area() == old_buf.spec_area(),
                old_buf.wf(),
                content.wf(),
                content.spec_area() == window,
                window == self.window(viewport),
                forall|x: int, y: int|
                    #![trigger content.cell(x, y)]
                    window.has(x, y) ==> content.cell(x, y) == content_cell(ps, x, y),
                forall|j: int|
                    #![trigger buf.cells()[j]]
                    0 <= j < k ==> buf.cells()[j] == shifted(
                        old_buf,
                        window,
                        ps,
                        self.scroll(),
                        j,
                    ),
                forall|j: int| #![trigger buf.cells()[j]] k <= j < n ==> buf.cells()[j] == old_buf.cells()[j],
            decreases n - k,
        {
            proof {
                lemma_position_of_index(buf.spec_area(), k as int);
            }
            match buf.position(k) {
                Some((x, ty)) => {
                    proof {
                        lemma_index_in_bounds(buf.spec_area(), x as int, ty as int);
                    }
                    let cy = ty as i64 + self.scroll_v as i64;
                    if cy >= window.y as i64 && cy < window.bottom() as i64 && x >= window.x && x
                        < window.right() {
                        let c = content.get(x, cy as u16);
                        match c {
                            Some(c) => {
                                buf.set_index(k, c);
                            },
                            None => {},
                        }
                    }
                },
                None => {},
            }
            k = k + 1;
        }
        assert forall|x: int, y: int|
            #![trigger buf.cell(x, y)]
            buf.spec_area().has(x, y) implies buf.cell(x, y) == if self.window(viewport).has(
                x,
                y + self.scroll(),
            ) {
                content_cell(self.placements(), x, y + self.scroll())
            } else {
                old_buf.cell(x, y)
            } by {
            lemma_index_in_bounds(buf.spec_area(), x, y);
            let j = index_of(buf.spec_area(), x, y);
            assert(buf.cells()[j] == shifted(old_buf, window, ps, self.scroll(), j));
        }
    }
}

/// Storing a rectangle that the stored area already covers, or one without
/// cells, leaves the stored area unchanged.
pub proof fn lemma_store_covered_keeps_area(before: Store, after: Store, area: Rect, w: WidgetView)
    requires
        before.wf(),
        after.wf(),
        after.placements() == before.placements().push((area, w)),
        area.spec_clamped().spec_is_empty() || (before.stored() matches Some(u) && u.covers(area)),
    ensures
        after.spec_stored_area() == before.spec_stored_area(),
{
    let rs = areas(before.placements());
    assert(areas(after.placements()) =~= rs.push(area));
    lemma_covered_rect_keeps_union(rs, area);
}

/// What the copy step leaves in the `j`-th cell of the target buffer.
pub open spec fn shifted(
    target: Buffer,
    window: Rect,
    ps: Seq<PlacementView>,
    scroll: int,
    j: int,
) -> Cell {
    let area = target.spec_area();
    let x = column_of(area, j);
    let y = row_of(area, j);
    if area.has(x, y) && window.has(x, y + scroll) {
        content_cell(ps, x, y + scroll)
    } else {
        target.cells()[j]
    }
}

/// Draws `widget` at `area` into `buf`, cut at the buffer's edges.
pub fn paint(buf: &mut Buffer, area: Rect, widget: &Widget)
    requires
        old(buf).wf(),
    ensures
        final(buf).wf(),
        final(buf).spec_area() == old(buf).spec_area(),
        forall|x: int, y: int|
            #![trigger final(buf).cell(x, y)]
            final(buf).spec_area().has(x, y) ==> final(buf).cell(x, y) == match widget_cell(
                (area, widget@),
                x,
                y,
            ) {
                Some(c) => c,
                None => old(buf).cell(x, y),
            },
{
    let ghost old_buf = *buf;
    let ghost p = (area, widget@);
    let cells: Vec<Cell> = match widget {
        Widget::Line(l) => l.cells(),
        Widget::Border(_) => Vec::new(),
    };
    let n = buf.len();
    let mut k: usize = 0;
    while k < n
        invariant
            n == buf.cells().len(),
            k <= n,
            buf.wf(),
            buf.spec_area() == old_buf.spec_area(),
            old_buf.wf(),
            p == (area, widget@),
            widget is Line ==> cells@ == crate::line::line_cells(widget->Line_0@),
            forall|j: int|
                #![trigger buf.cells()[j]]
                0 <= j < k ==> buf.cells()[j] == painted(old_buf, p, j),
            forall|j: int| #![trigger buf.cells()[j]] k <= j < n ==> buf.cells()[j] == old_buf.cells()[j],
        decreases n - k,
    {
        proof {
            lemma_position_of_index(buf.spec_area(), k as int);
        }
        match buf.position(k) {
            Some((x, y)) => {
                proof {
                    lemma_index_in_bounds(buf.spec_area(), x as int, y as int);
                }
                let c = match widget {
                    Widget::Line(_) => line_cell(&cells, area, x, y),
                    Widget::Border(b) => b.cell_at(area, x, y),
                };
                match c {
                    Some(c) => {
                        buf.set_index(k, c);
                    },
                    None => {},
                }
            },
            None => {},
        }
        k = k + 1;
    }
    assert forall|x: int, y: int|
        #![trigger buf.cell(x, y)]
        buf.spec_area().has(x, y) implies buf.cell(x, y) == match widget_cell(p, x, y) {
            Some(c) => c,
            None => old_buf.cell(x, y),
        } by {
        lemma_index_in_bounds(buf.spec_area(), x, y);
        let j = index_of(buf.spec_area(), x, y);
        assert(buf.cells()[j] == painted(old_buf, p, j));
    }
}

/// What painting placement `p` leaves in the `j`-th cell of `target`.
pub open spec fn painted(target: Buffer, p: PlacementView, j: int) -> Cell {
    let area = target.spec_area();
    let x = column_of(area, j);
    let y = row_of(area, j);
    if area.has(x, y) {
        match widget_cell(p, x, y) {
            Some(c) => c,
            None => target.cells()[j],
        }
    } else {
        target.cells()[j]
    }
}

/// The cell a line with cells `cells` draws at `(x, y)` when placed at `area`.
fn line_cell(cells: &Vec<Cell>, area: Rect, x: u16, y: u16) -> (r: Option<Cell>)
    ensures
        forall|l: LineView|
            crate::line::line_cells(l) == cells@ ==> r == line_cell_at(l, area, x as int, y as int),
{
    if x >= area.x && x < area.right() && y >= area.y && y < area.bottom() && y == area.y && ((x
        - area.x) as usize) < cells.len() {
        Some(cells[(x - area.x) as usize])
    } else {
        None
    }
}

/// The part of `viewport` below `stored_area`: same columns, from the stored
/// area's bottom edge, kept within `viewport`, down to the viewport's bottom.
pub fn bottom_space(stored_area: Rect, viewport: Rect) -> (r: Rect)
    ensures
        r == space_below(stored_area, viewport),
        stored_area.spec_bottom() >= viewport.spec_bottom() ==> r.height == 0,
{
    let stored_area = stored_area.intersection(viewport);
    let height = viewport.bottom().saturating_sub(stored_area.bottom());
    Rect { y: viewport.bottom() - height, height, ..viewport }
}

/// `area` moved down by `scroll_v` rows (up for negative values); rows above
/// the top edge are cut off, and the top edge stays within the coordinate range.
pub fn scroll_rect(area: Rect, scroll_v: i32) -> (r: Rect)
    ensures
        r == scrolled(area, scroll_v as int),
{
    let y = area.y as i64 + scroll_v as i64;
    let height = if y < 0 {
        let h = area.height as i64 + y;
        if h < 0 {
            0
        } else {
            h as u16
        }
    } else {
        area.height
    };
    let top = if y < 0 {
        0
    } else if y > 65535 {
        65535
    } else {
        y as u16
    };
    Rect { y: top, height, ..area }
}

} // verus!
