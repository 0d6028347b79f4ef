use tui_store::fit::Fit;
use tui_store::{Account, Block, Borders, NewValue, Rect, RectExt, ViewID};

#[test]
fn fit_vertical_edges() {
    let fit = Fit { top: true, bottom: true, ..Fit::default() };
    assert_eq!(
        Rect::new(0, 2, 10, 6),
        fit.calc(Rect::new(0, 0, 10, 10), Rect::new(1, 1, 8, 8), Rect::new(3, 3, 4, 4))
    );
}

#[test]
fn fit_at_max_height() {
    let fit = Fit { top: true, bottom: true, ..Fit::default() };
    assert_eq!(
        Rect::new(0, 0, 10, 3),
        fit.calc(
            Rect::new(0, 0, 10, u16::MAX),
            Rect::new(1, 1, 8, u16::MAX - 2),
            Rect::new(1, 1, 8, 1)
        )
    );
}

#[test]
fn fit_horizontal_edges() {
    let fit = Fit { left: true, right: true, ..Fit::default() };
    assert_eq!(
        Rect::new(2, 0, 6, 10),
        fit.calc(Rect::new(0, 0, 10, 10), Rect::new(1, 1, 8, 8), Rect::new(3, 3, 4, 4))
    );
}

#[test]
fn block_inner_area() {
    assert_eq!(Block::bordered().inner(Rect::new(0, 0, 10, 10)), Rect::new(1, 1, 8, 8));
    assert_eq!(Block::new().inner(Rect::new(2, 3, 4, 5)), Rect::new(2, 3, 4, 5));
    let top_only = Block::new().borders(Borders { top: true, ..Borders::none() });
    assert_eq!(top_only.inner(Rect::new(0, 0, 4, 4)), Rect::new(0, 1, 4, 3));
    assert_eq!(Block::bordered().inner(Rect::new(0, 0, 1, 1)), Rect::new(1, 1, 0, 0));
}

#[test]
fn rect_union_and_intersection() {
    let a = Rect::new(0, 0, 4, 2);
    let b = Rect::new(2, 1, 4, 4);
    assert_eq!(a.union(b), Rect::new(0, 0, 6, 5));
    assert_eq!(b.union(a), Rect::new(0, 0, 6, 5));
    assert_eq!(a.intersection(b), Rect::new(2, 1, 2, 1));
    assert!(a.intersects(b));
    assert!(!a.intersects(Rect::new(4, 0, 1, 1)));
    assert_eq!(Rect::new(65530, 0, 10, 1).right(), 65535);
}

#[test]
fn rect_ext_setters() {
    let r = Rect::new(1, 2, 3, 4);
    assert_eq!(r.x(9u16), Rect::new(9, 2, 3, 4));
    assert_eq!(r.y(9u16), Rect::new(1, 9, 3, 4));
    assert_eq!(r.width(9u16), Rect::new(1, 2, 9, 4));
    assert_eq!(r.height(9u16), Rect::new(1, 2, 3, 9));
    assert_eq!(7u16.new_value(3), 7);
}

#[test]
fn account_with_display_name() {
    let a = Account::new(Some("Alice".to_string()), "alice.bsky.social");
    assert_eq!(a.name, "Alice");
    assert_eq!(a.opt_name, Some("@alice.bsky.social".to_string()));
}

#[test]
fn account_without_display_name() {
    let a = Account::new(Some(String::new()), "bob.test");
    assert_eq!(a.name, "@bob.test");
    assert_eq!(a.opt_name, None);
    let b = Account::new(None, "carol");
    assert_eq!(b.name, "@carol");
    assert_eq!(b.opt_name, None);
}

#[test]
fn view_id_resume_session() {
    assert!(ViewID::new().login_resume_session());
    assert!(!ViewID::Login { resume_session: false }.login_resume_session());
    assert!(!ViewID::Home.login_resume_session());
}
