use vstd::prelude::*;
use crate::block::{spec_inner, Block};
use crate::rect::Rect;
use crate::store::{areas, or_zero, union_all, PlacementView, Storeable, Store, Widget, WidgetView};

verus! {

/// Which edges of a border follow the content instead of the offered area.
#[derive(Clone, Copy, Debug, PartialEq, Eq, Hash, Default)]
pub struct Fit {
    pub top: bool,
    pub bottom: bool,
    pub right: bool,
    pub left: bool,
}

pub open spec fn sat_sub(a: int, b: int) -> int {
    if a > b {
        a - b
    } else {
        0
    }
}

pub open spec fn sat_add(a: int, b: int) -> int {
    if a + b > 65535 {
        65535
    } else {
        a + b
    }
}

impl Fit {
    /// The border rectangle: each fitted edge sits on the content's edge,
    /// pushed out by the border's thickness there; each other edge stays on
    /// the offered area.
    pub open spec fn spec_calc(self, area: Rect, inner: Rect, target: Rect) -> Rect {
        let left = if self.left {
            sat_sub(target.x as int, sat_sub(inner.x as int, area.x as int))
        } else {
            area.x as int
        };
        let top = if self.top {
            sat_sub(target.y as int, sat_sub(inner.y as int, area.y as int))
        } else {
            area.y as int
        };
        let right = if self.right {
            sat_add(target.spec_right(), sat_sub(area.spec_right(), inner.spec_right()))
        } else {
            area.spec_right()
        };
        let bottom = if self.bottom {
            sat_add(target.spec_bottom(), sat_sub(area.spec_bottom(), inner.spec_bottom()))
        } else {
            area.spec_bottom()
        };
        Rect {
            x: left as u16,
            y: top as u16,
            width: sat_sub(right, left) as u16,
            height: sat_sub(bottom, top) as u16,
        }
    }

    pub fn calc(&self, area: Rect, inner: Rect, target: Rect) -> (r: Rect)
        ensures
            r == self.spec_calc(area, inner, target),
    {
        let left = if self.left {
            target.left().saturating_sub(inner.left().saturating_sub(area.left()))
        } else {
            area.left()
        };
        let top = if self.top {
            target.top().saturating_sub(inner.top().saturating_sub(area.top()))
        } else {
            area.top()
        };
        let right = if self.right {
            target.right().saturating_add(area.right().saturating_sub(inner.right()))
        } else {
            area.right()
        };
        let bottom = if self.bottom {
            target.bottom().saturating_add(area.bottom().saturating_sub(inner.bottom()))
        } else {
            area.bottom()
        };
        Rect {
            x: left,
            y: top,
            width: right.saturating_sub(left),
            height: bottom.saturating_sub(top),
        }
    }
}

/// A block drawn around a child, with chosen edges fitted to the child's
/// rendered size.
pub struct Wrapper<C> {
    pub block: Block,
    pub child: C,
    pub fit: Fit,
}

impl Block {
    /// Wraps `child` in this block; no edge is fitted yet.
    pub fn wrap_child<C: Storeable>(self, child: C) -> (r: Wrapper<C>)
        ensures
            r.block == self,
            r.child == child,
            r.fit == (Fit { top: false, bottom: false, right: false, left: false }),
    {
        Wrapper { block: self, child, fit: Fit { top: false, bottom: false, right: false, left: false } }
    }
}

impl<C: Storeable> Wrapper<C> {
    pub fn fit_all(self) -> (r: Wrapper<C>)
        ensures
            r.block == self.block,
            r.child == self.child,
            r.fit == (Fit { top: true, bottom: true, right: true, left: true }),
    {
        self.fit_vertical().fit_horizontal()
    }

    pub fn fit_vertical(self) -> (r: Wrapper<C>)
        ensures
            r.block == self.block,
            r.child == self.child,
            r.fit == (Fit { top: true, bottom: true, ..self.fit }),
    {
        self.fit_top().fit_bottom()
    }

    pub fn fit_horizontal(self) -> (r: Wrapper<C>)
        ensures
            r.block == self.block,
            r.child == self.child,
            r.fit == (Fit { right: true, left: true, ..self.fit }),
    {
        self.fit_right().fit_left()
    }

    pub fn fit_top(self) -> (r: Wrapper<C>)
        ensures
            r.block == self.block,
            r.child == self.child,
            r.fit == (Fit { top: true, ..self.fit }),
    {
        Wrapper { fit: Fit { top: true, ..self.fit }, ..self }
    }

    pub fn fit_bottom(self) -> (r: Wrapper<C>)
        ensures
            r.block == self.block,
            r.child == self.child,
            r.fit == (Fit { bottom: true, ..self.fit }),
    {
        Wrapper { fit: Fit { bottom: true, ..self.fit }, ..self }
    }

    pub fn fit_right(self) -> (r: Wrapper<C>)
        ensures
            r.block == self.block,
            r.child == self.child,
            r.fit == (Fit { right: true, ..self.fit }),
    {
        Wrapper { fit: Fit { right: true, ..self.fit }, ..self }
    }

    pub fn fit_left(self) -> (r: Wrapper<C>)
        ensures
            r.block == self.block,
            r.child == self.child,
            r.fit == (Fit { left: true, ..self.fit }),
    {
        Wrapper { fit: Fit { left: true, ..self.fit }, ..self }
    }

    /// What storing the wrapper at `area` adds after the child placed
    /// `nested` inside the block's inner area: nothing when the child's
    /// content has no area, else the child's placements followed by the
    /// block at the fitted rectangle.
    pub open spec fn added(self, area: Rect, nested: Seq<PlacementView>) -> Seq<PlacementView> {
        let target = or_zero(union_all(areas(nested)));
        if target.spec_is_empty() {
            Seq::empty()
        } else {
            nested.push(
                (
                    self.fit.spec_calc(area, spec_inner(self.block, area), target),
                    WidgetView::Border(self.block),
                ),
            )
        }
    }

    /// Stores the child inside the block's inner area, then the block around
    /// it; with no content, neither is stored.
    pub fn store_in(self, area: Rect, store: &mut Store)
        requires
            old(store).wf(),
        ensures
            final(store).wf(),
            final(store).scroll() == old(store).scroll(),
            final(store).placements() == old(store).placements() + self.added(
                area,
                self.child.placed(spec_inner(self.block, area)),
            ),
    {
        let ghost this = self;
        let inner = self.block.inner(area);
        let mut nested = Store::new();
        self.child.store(inner, &mut nested);
        let ghost ns = nested.placements();
        assert(ns =~= this.child.placed(spec_inner(this.block, area)));
        let stored_area = nested.stored_area();
        if stored_area.is_empty() {
            assert(old(store).placements() + this.added(area, ns) =~= old(store).placements());
            return;
        }
        let ghost before = store.placements();
        store.extend(nested);
        let rect = self.fit.calc(area, inner, stored_area);
        store.push(rect, Widget::Border(self.block));
        assert(store.placements() =~= before + this.added(area, ns));
    }
}

/// A fitted border around content with no area adds nothing to the store,
/// so the stored area stays as it was.
pub proof fn lemma_empty_content_adds_nothing<C: Storeable>(w: Wrapper<C>, area: Rect)
    requires
        or_zero(union_all(areas(w.child.placed(spec_inner(w.block, area))))).spec_is_empty(),
    ensures
        w.placed(area) == Seq::<PlacementView>::empty(),
{
}

impl<C: Storeable> Storeable for Wrapper<C> {
    open spec fn placed(&self, area: Rect) -> Seq<PlacementView> {
        self.added(area, self.child.placed(spec_inner(self.block, area)))
    }

    fn store(self, area: Rect, store: &mut Store) {
        self.store_in(area, store);
    }
}

} // verus!
