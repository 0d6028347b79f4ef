use tui_store::{bottom_space, scroll_rect, Block, Buffer, Line, Rect, Span, Store, Storeable};

fn rows(buf: &Buffer) -> Vec<String> {
    buf.rows().into_iter().map(|r| r.into_iter().collect()).collect()
}

#[test]
fn stored_area() {
    let mut store = Store::new();

    Block::new().store(Rect::new(0, 0, 1, 1), &mut store);
    assert_eq!(Rect::new(0, 0, 1, 1), store.stored_area());

    Block::new().store(Rect::new(1, 1, 1, 1), &mut store);
    assert_eq!(Rect::new(0, 0, 2, 2), store.stored_area());

    Block::new().store(Rect::new(3, 0, 1, 1), &mut store);
    assert_eq!(Rect::new(0, 0, 4, 2), store.stored_area());

    Block::new().store(Rect::new(0, 0, 5, 5), &mut store);
    assert_eq!(Rect::new(0, 0, 5, 5), store.stored_area());
}

#[test]
fn render_widgets() {
    let mut store = Store::new();
    let mut buf = Buffer::empty(Rect::new(0, 0, 10, 5));

    Span::raw("hello").store(Rect::new(0, 0, 5, 1), &mut store);
    Span::raw("world").store(Rect::new(7, 4, 5, 1), &mut store);
    store.render(buf.area(), &mut buf);
    assert_eq!(
        rows(&buf),
        vec!["hello     ", "          ", "          ", "          ", "       wor"]
    );
}

#[test]
fn render_small_widget() {
    let mut store = Store::new();
    let mut buf = Buffer::empty(Rect::new(0, 0, 10, 5));

    Span::raw("#").store(Rect::new(4, 2, 2, 1), &mut store);
    store.render(buf.area(), &mut buf);
    assert_eq!(
        rows(&buf),
        vec!["          ", "          ", "    #     ", "          ", "          "]
    );
}

#[test]
fn scroll_vertical_positive() {
    let mut store = Store::new().scroll_v(2);
    let mut buf = Buffer::empty(Rect::new(0, 0, 10, 5));

    Span::raw("11").store(Rect::new(4, 1, 2, 1), &mut store);
    Span::raw("22").store(Rect::new(4, 2, 2, 1), &mut store);
    store.render(buf.area(), &mut buf);
    assert_eq!(
        rows(&buf),
        vec!["    22    ", "          ", "          ", "          ", "          "]
    );
}

#[test]
fn scroll_vertical_negative() {
    let mut store = Store::new().scroll_v(-2);
    let mut buf = Buffer::empty(Rect::new(0, 0, 10, 5));

    Span::raw("11").store(Rect::new(4, 2, 2, 1), &mut store);
    Span::raw("22").store(Rect::new(4, 3, 2, 1), &mut store);
    store.render(buf.area(), &mut buf);
    assert_eq!(
        rows(&buf),
        vec!["          ", "          ", "          ", "          ", "    11    "]
    );
}

#[test]
fn stored_area_is_exact_union_in_any_order() {
    let rects = [
        Rect::new(2, 3, 4, 1),
        Rect::new(0, 5, 1, 1),
        Rect::new(6, 0, 2, 2),
    ];
    let mut forward = Store::new();
    for r in rects {
        Block::new().store(r, &mut forward);
    }
    let mut backward = Store::new();
    for r in rects.iter().rev() {
        Block::new().store(*r, &mut backward);
    }
    assert_eq!(forward.stored_area(), Rect::new(0, 0, 8, 6));
    assert_eq!(backward.stored_area(), Rect::new(0, 0, 8, 6));
}

#[test]
fn storing_covered_rect_keeps_stored_area() {
    let mut store = Store::new();
    Block::new().store(Rect::new(1, 1, 6, 4), &mut store);
    Block::new().store(Rect::new(2, 2, 3, 1), &mut store);
    assert_eq!(store.stored_area(), Rect::new(1, 1, 6, 4));
    Block::new().store(Rect::new(1, 1, 6, 4), &mut store);
    assert_eq!(store.stored_area(), Rect::new(1, 1, 6, 4));
}

#[test]
fn empty_placement_does_not_grow_stored_area() {
    let mut store = Store::new();
    Block::new().store(Rect::new(5, 5, 2, 2), &mut store);
    Block::new().store(Rect::new(0, 0, 0, 3), &mut store);
    assert_eq!(store.stored_area(), Rect::new(5, 5, 2, 2));
}

#[test]
fn empty_store_has_zero_area_and_renders_nothing() {
    let store = Store::new();
    assert_eq!(store.stored_area(), Rect::new(0, 0, 0, 0));
    let mut buf = Buffer::empty(Rect::new(0, 0, 3, 2));
    store.render(buf.area(), &mut buf);
    assert_eq!(rows(&buf), vec!["   ", "   "]);
}

#[test]
fn extend_joins_placements_and_areas() {
    let mut a = Store::new();
    Span::raw("ab").store(Rect::new(0, 0, 2, 1), &mut a);
    let mut b = Store::new();
    Span::raw("cd").store(Rect::new(3, 2, 2, 1), &mut b);
    a.extend(b);
    assert_eq!(a.stored_area(), Rect::new(0, 0, 5, 3));
    let mut buf = Buffer::empty(Rect::new(0, 0, 5, 3));
    a.render(buf.area(), &mut buf);
    assert_eq!(rows(&buf), vec!["ab   ", "     ", "   cd"]);
}

#[test]
fn bottom_space_below_content() {
    assert_eq!(
        Rect::new(0, 7, 10, 3),
        bottom_space(Rect::new(3, 5, 1, 2), Rect::new(0, 0, 10, 10))
    );
}

#[test]
fn bottom_space_of_empty_store() {
    assert_eq!(
        Rect::new(0, 0, 10, 10),
        bottom_space(Rect::new(0, 0, 0, 0), Rect::new(0, 0, 10, 10))
    );
    let store = Store::new();
    assert_eq!(
        Rect::new(2, 3, 4, 5),
        store.bottom_space(Rect::new(2, 3, 4, 5))
    );
}

#[test]
fn bottom_space_when_full() {
    assert_eq!(
        Rect::new(0, 10, 10, 0),
        bottom_space(Rect::new(0, 0, 10, 10), Rect::new(0, 0, 10, 10))
    );
    let mut store = Store::new();
    Block::new().store(Rect::new(0, 4, 3, 20), &mut store);
    assert_eq!(store.bottom_space(Rect::new(0, 0, 10, 10)), Rect::new(0, 10, 10, 0));
}

#[test]
fn bottom_space_content_above_viewport() {
    let mut store = Store::new();
    Block::new().store(Rect::new(0, 0, 3, 2), &mut store);
    assert_eq!(store.bottom_space(Rect::new(1, 5, 4, 4)), Rect::new(1, 5, 4, 4));
}

#[test]
fn scroll_rect_cases() {
    assert_eq!(Rect::new(0, 0, 10, 10), scroll_rect(Rect::new(0, 0, 10, 10), 0));
    assert_eq!(Rect::new(0, 5, 10, 10), scroll_rect(Rect::new(0, 0, 10, 10), 5));
    assert_eq!(Rect::new(0, 0, 10, 3), scroll_rect(Rect::new(0, 0, 10, 10), -7));
    assert_eq!(Rect::new(0, 0, 10, 0), scroll_rect(Rect::new(0, 0, 10, 10), -i32::MAX));
    assert_eq!(Rect::new(0, 65535, 10, 10), scroll_rect(Rect::new(0, 65530, 10, 10), 100));
}

#[test]
fn render_unshifted_without_scroll() {
    let mut store = Store::new();
    Line::from_strs(&["ab", "c"]).store(Rect::new(1, 1, 3, 1), &mut store);
    let mut buf = Buffer::empty(Rect::new(0, 0, 5, 3));
    store.render(buf.area(), &mut buf);
    assert_eq!(rows(&buf), vec!["     ", " abc ", "     "]);
}

#[test]
fn render_keeps_cells_outside_window() {
    let mut store = Store::new().scroll_v(1);
    Span::raw("xy").store(Rect::new(0, 1, 2, 1), &mut store);
    Span::raw("zw").store(Rect::new(0, 2, 2, 1), &mut store);
    let mut buf = Buffer::empty(Rect::new(0, 0, 2, 3));
    let mut marks = Store::new();
    Span::raw("##").store(Rect::new(0, 2, 2, 1), &mut marks);
    marks.render(buf.area(), &mut buf);
    store.render(buf.area(), &mut buf);
    assert_eq!(rows(&buf), vec!["xy", "zw", "##"]);
}

#[test]
fn later_placement_draws_over_earlier() {
    let mut store = Store::new();
    Span::raw("aaaa").store(Rect::new(0, 0, 4, 1), &mut store);
    Span::raw("bb").store(Rect::new(1, 0, 2, 1), &mut store);
    let mut buf = Buffer::empty(Rect::new(0, 0, 4, 1));
    store.render(buf.area(), &mut buf);
    assert_eq!(rows(&buf), vec!["abba"]);
}

#[test]
fn border_block_draws_frame() {
    let mut store = Store::new();
    Block::bordered().store(Rect::new(0, 0, 4, 3), &mut store);
    let mut buf = Buffer::empty(Rect::new(0, 0, 4, 3));
    store.render(buf.area(), &mut buf);
    assert_eq!(rows(&buf), vec!["┌──┐", "│  │", "└──┘"]);
}

#[test]
fn rect_past_coordinate_limit_is_cut_and_idempotent() {
    let mut store = Store::new();
    Block::new().store(Rect::new(65000, 0, 1000, 1), &mut store);
    assert_eq!(store.stored_area(), Rect::new(65000, 0, 535, 1));
    Block::new().store(Rect::new(65000, 0, 1000, 1), &mut store);
    assert_eq!(store.stored_area(), Rect::new(65000, 0, 535, 1));
    Block::new().store(Rect::new(65000, 0, 1, 1), &mut store);
    assert_eq!(store.stored_area(), Rect::new(65000, 0, 535, 1));
}

#[test]
fn rect_without_cells_at_limit_adds_nothing() {
    let mut store = Store::new();
    Block::new().store(Rect::new(65535, 0, 5, 1), &mut store);
    Block::new().store(Rect::new(65535, 0, 5, 1), &mut store);
    assert_eq!(store.stored_area(), Rect::new(0, 0, 0, 0));
    Block::new().store(Rect::new(0, 0, 1, 1), &mut store);
    assert_eq!(store.stored_area(), Rect::new(0, 0, 1, 1));
    let mut other = Store::new();
    Block::new().store(Rect::new(65535, 3, 5, 1), &mut other);
    store.extend(other);
    assert_eq!(store.stored_area(), Rect::new(0, 0, 1, 1));
}

#[test]
fn repeated_rects_keep_union() {
    let mut store = Store::new();
    for r in [Rect::new(1, 1, 2, 2), Rect::new(4, 0, 1, 1), Rect::new(1, 1, 2, 2)] {
        Block::new().store(r, &mut store);
    }
    assert_eq!(store.stored_area(), Rect::new(1, 0, 4, 3));
}
