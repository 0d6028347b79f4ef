use tui_store::text::{
    lay_out_span, line_area, restore_trailing_space, trailing_space_of, wrap_and_restore_trailing_space,
};
use tui_store::{Alignment, Block, Buffer, Line, Rect, Span, Store, Storeable, Style, Text};

fn rows(buf: &Buffer) -> Vec<String> {
    buf.rows().into_iter().map(|r| r.into_iter().collect()).collect()
}

fn texts(lines: &[Line]) -> Vec<String> {
    lines.iter().map(|l| l.text()).collect()
}

fn ellipsis(s: &str) -> String {
    format!("{}{}", s, '…')
}

#[test]
fn test_set_ellipsis() {
    assert_eq!(
        vec![Line::from_strs(&[ellipsis("he").as_str()])],
        Text::raw("hello").lines(3, 1)
    );
    assert_eq!(
        vec![
            Line::from_strs(&["hello"]),
            Line::from_strs(&["hello"]),
            Line::from_strs(&[ellipsis("hell").as_str()]),
        ],
        Text::from_strs(&["hello ", "hello ", "hello ", "hello"]).lines(7, 3)
    );
}

#[test]
fn one_word() {
    let mut store = Store::new();
    let mut buf = Buffer::empty(Rect::new(0, 0, 10, 1));

    Text::raw("hello").store(buf.area(), &mut store);
    store.render(buf.area(), &mut buf);
    assert_eq!(rows(&buf), vec!["hello     "]);
}

#[test]
fn alignment() {
    let mut store = Store::new();
    let mut buf = Buffer::empty(Rect::new(0, 0, 11, 1));

    Text::raw("hello")
        .alignment(Alignment::Center)
        .store(buf.area(), &mut store);
    store.render(buf.area(), &mut buf);
    assert_eq!(rows(&buf), vec!["   hello   "]);
}

#[test]
fn right_alignment() {
    let mut store = Store::new();
    let mut buf = Buffer::empty(Rect::new(0, 0, 8, 1));
    Text::raw("abc")
        .alignment(Alignment::Right)
        .store(buf.area(), &mut store);
    store.render(buf.area(), &mut buf);
    assert_eq!(rows(&buf), vec!["     abc"]);
}

#[test]
fn wrap_words() {
    let lines = Text::from_strs(&["hello ", "world"]).lines(7, usize::MAX);
    assert_eq!(lines, vec![Line::from_strs(&["hello"]), Line::from_strs(&["world"])]);
}

#[test]
fn wrap_chars() {
    let lines = Text::from_strs(&["hello ", "world"]).lines(3, usize::MAX);
    assert_eq!(
        lines,
        vec![
            Line::from_strs(&["hel"]),
            Line::from_strs(&["lo"]),
            Line::from_strs(&["wor"]),
            Line::from_strs(&["ld"]),
        ]
    );
}

#[test]
fn no_wrap_keeps_span_boundary_space() {
    let lines = Text::from_strs(&["hello ", "world"]).lines(15, usize::MAX);
    assert_eq!(lines, vec![Line::from_strs(&["hello ", "world"])]);
    assert_eq!(texts(&lines), vec!["hello world"]);
}

#[test]
fn whitespace_spans() {
    let lines = Text::from_strs(&["hello", " ", "  ", "world"]).lines(15, usize::MAX);
    assert_eq!(lines, vec![Line::from_strs(&["hello", " ", "  ", "world"])]);
}

#[test]
fn newline_in_span() {
    let lines = Text::raw("a\nhello").lines(10, usize::MAX);
    assert_eq!(lines, vec![Line::from_strs(&["a"]), Line::from_strs(&["hello"])]);
}

#[test]
fn newline_ends_span() {
    let lines = Text::from_strs(&["a\n", "hello"]).lines(10, usize::MAX);
    assert_eq!(lines, vec![Line::from_strs(&["a"]), Line::from_strs(&["", "hello"])]);
}

#[test]
fn ellipsis_with_one_line() {
    let lines = Text::raw("hello").lines(3, 1);
    assert_eq!(lines.len(), 1);
    assert_eq!(texts(&lines), vec![ellipsis("he")]);
    assert!(texts(&lines)[0].ends_with('…'));
}

#[test]
fn zero_height_gives_no_lines() {
    assert!(Text::raw("hello").lines(10, 0).is_empty());
}

#[test]
fn line_count_stays_within_height() {
    let lines = Text::raw("a b c d e f g").lines(1, 4);
    assert_eq!(lines.len(), 4);
    assert_eq!(texts(&lines), vec!["a", "b", "c", ellipsis("").as_str()]);
}

#[test]
fn styles_follow_spans() {
    let bold = Style { bold: true, ..Style::new() };
    let text = Text::from_spans(vec![Span::raw("Alice"), Span::styled(" liked", bold)]);
    let lines = text.lines(20, 5);
    assert_eq!(lines.len(), 1);
    assert_eq!(lines[0].spans.len(), 2);
    assert_eq!(lines[0].spans[1].style, bold);
    assert_eq!(lines[0].text(), "Alice liked");
}

#[test]
fn ignored_empty_text_places_nothing() {
    let mut store = Store::new();
    Text::from_strs(&["", ""]).store(Rect::new(0, 0, 10, 3), &mut store);
    assert_eq!(store.stored_area(), Rect::new(0, 0, 0, 0));
}

#[test]
fn empty_text_kept_when_not_ignored() {
    let mut store = Store::new();
    Text::from_strs(&["", "x"]).store(Rect::new(2, 1, 10, 3), &mut store);
    assert_eq!(store.stored_area(), Rect::new(2, 1, 1, 1));
}

#[test]
fn text_in_empty_area_places_nothing() {
    let mut store = Store::new();
    Text::raw("hello").store(Rect::new(0, 0, 0, 3), &mut store);
    assert_eq!(store.stored_area(), Rect::new(0, 0, 0, 0));
}

#[test]
fn reused_text_wraps_for_each_size() {
    let mut text = Text::from_strs(&["hello ", "world"]);
    let mut store = Store::new();
    text.store_in(Rect::new(0, 0, 15, 2), &mut store);
    assert_eq!(store.stored_area(), Rect::new(0, 0, 11, 1));
    text.store_in(Rect::new(0, 0, 15, 2), &mut store);
    assert_eq!(store.stored_area(), Rect::new(0, 0, 11, 1));
    let mut narrow = Store::new();
    text.store_in(Rect::new(0, 0, 7, 2), &mut narrow);
    assert_eq!(narrow.stored_area(), Rect::new(0, 0, 5, 2));
}

#[test]
fn fit_border_around_empty_content() {
    let mut store = Store::new();
    Block::bordered()
        .wrap_child(Text::raw(""))
        .fit_all()
        .store(Rect::new(0, 0, 10, 10), &mut store);
    assert_eq!(store.stored_area(), Rect::new(0, 0, 0, 0));
}

#[test]
fn fit_border_hugs_content_height() {
    let mut store = Store::new();
    Block::bordered()
        .wrap_child(Text::raw("hi"))
        .fit_vertical()
        .store(Rect::new(0, 0, 10, 5), &mut store);
    assert_eq!(store.stored_area(), Rect::new(0, 0, 10, 3));
    let mut buf = Buffer::empty(Rect::new(0, 0, 10, 5));
    store.render(buf.area(), &mut buf);
    assert_eq!(
        rows(&buf),
        vec!["┌────────┐", "│hi      │", "└────────┘", "          ", "          "]
    );
}

#[test]
fn trailing_space_cases() {
    let cases = [("asdf", ""), (" s     ", "     "), ("  ", "  "), ("\n   ", "   ")];
    for (from, to) in cases {
        let chars: Vec<char> = from.chars().collect();
        let got: String = trailing_space_of(&chars).into_iter().collect();
        assert_eq!(got, to);
    }
}

fn chars(s: &str) -> Vec<char> {
    s.chars().collect()
}

fn strings(frags: &[Vec<char>]) -> Vec<String> {
    frags.iter().map(|f| f.iter().collect()).collect()
}

#[test]
fn lay_out_span_stops_at_line_limit() {
    let span = Span::raw("ab ");
    let (lines, cut) = lay_out_span(Vec::new(), &span, vec![chars("a"), chars("b")], 1);
    assert!(cut);
    assert_eq!(texts(&lines), vec!["a"]);
    let (lines, cut) = lay_out_span(Vec::new(), &span, vec![chars("a"), chars("b")], 2);
    assert!(!cut);
    assert_eq!(lines, vec![Line::from_strs(&["a"]), Line::from_strs(&["b "])]);
}

#[test]
fn lay_out_span_extends_last_line() {
    let start = vec![Line::from_strs(&["hello "])];
    let (lines, cut) = lay_out_span(start, &Span::raw("world"), vec![chars("hello world")], 5);
    assert!(!cut);
    assert_eq!(lines, vec![Line::from_strs(&["hello ", "world"])]);
}

#[test]
fn lay_out_span_replaces_line_with_first_fragment() {
    let start = vec![Line::from_strs(&["hello "])];
    let (lines, cut) =
        lay_out_span(start, &Span::raw("world"), vec![chars("hello"), chars("world")], 5);
    assert!(!cut);
    assert_eq!(lines, vec![Line::from_strs(&["hello"]), Line::from_strs(&["world"])]);
}

#[test]
fn restore_puts_trailing_space_back() {
    let restored = restore_trailing_space(vec![chars("ab"), chars("cd")], &chars("ab cd \n  "));
    assert_eq!(strings(&restored), vec!["ab", "cd  "]);
    let restored = restore_trailing_space(vec![chars("ab"), chars("cd")], &chars("ab cd"));
    assert_eq!(strings(&restored), vec!["ab", "cd"]);
    assert!(restore_trailing_space(Vec::new(), &chars("  ")).is_empty());
}

#[test]
fn wrap_then_restore() {
    assert_eq!(strings(&wrap_and_restore_trailing_space(&chars("hello "), 3)), vec!["hel", "lo "]);
    assert_eq!(strings(&wrap_and_restore_trailing_space(&chars("hello world"), 7)), vec!["hello", "world"]);
}

#[test]
fn line_area_alignment() {
    let area = Rect::new(2, 3, 11, 4);
    assert_eq!(line_area(area, None, 5, 0), Rect::new(2, 3, 5, 1));
    assert_eq!(line_area(area, Some(Alignment::Left), 5, 1), Rect::new(2, 4, 5, 1));
    assert_eq!(line_area(area, Some(Alignment::Center), 5, 1), Rect::new(5, 4, 5, 1));
    assert_eq!(line_area(area, Some(Alignment::Right), 5, 2), Rect::new(8, 5, 5, 1));
    assert_eq!(line_area(area, Some(Alignment::Right), 20, 0), Rect::new(2, 3, 20, 1));
}

#[test]
fn display_width_counts_columns() {
    assert_eq!(Span::raw("hello").width(), 5);
    assert_eq!(Span::raw("").width(), 0);
    assert_eq!(Line::from_strs(&["ab", "cde"]).width(), 5);
}

#[test]
fn trailing_space_trimmed_across_spans() {
    assert_eq!(texts(&Text::from_strs(&[" ", " "]).lines(10, 5)), vec![""]);
    assert_eq!(texts(&Text::from_strs(&["ab ", " "]).lines(10, 5)), vec!["ab"]);
}

#[test]
fn ellipsis_replaces_last_visible_character() {
    assert_eq!(texts(&Text::from_strs(&["ab", " ", "cd"]).lines(2, 1)), vec![ellipsis("a")]);
}

#[test]
fn first_fragment_replaces_last_line() {
    assert_eq!(texts(&Text::from_strs(&["aaa bb", "b"]).lines(6, usize::MAX)), vec!["aaa", "bbb"]);
}

#[test]
fn lay_out_span_truncates_last_line_to_first_fragment() {
    let start = vec![Line::from_strs(&["aaa ", "bb"])];
    let (lines, cut) = lay_out_span(start, &Span::raw("b"), vec![chars("aaa"), chars("bbb")], 5);
    assert!(!cut);
    assert_eq!(lines, vec![Line::from_strs(&["aaa"]), Line::from_strs(&["bbb"])]);
}

#[test]
fn cut_text_always_ends_in_ellipsis() {
    for (parts, width, height) in [
        (vec!["hello world again"], 5usize, 2usize),
        (vec!["ab", " ", "cd"], 2, 1),
        (vec!["a\n", "\n", "b"], 4, 2),
    ] {
        let lines = Text::from_strs(&parts).lines(width, height);
        assert!(lines.len() <= height);
        assert!(texts(&lines).last().unwrap().ends_with('…'));
        for t in texts(&lines) {
            assert!(!t.ends_with(' '));
        }
    }
}
