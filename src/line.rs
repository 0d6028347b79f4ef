use vstd::prelude::*;
use crate::buffer::{Cell, Style};
use crate::rect::Rect;

verus! {

/// A span as plain values: its characters and its style.
pub type SpanView = (Seq<char>, Style);

/// A line as plain values: its spans in order.
pub type LineView = Seq<SpanView>;

/// A contiguous run of text in one style.
#[derive(Clone, Debug, PartialEq, Eq)]
pub struct Span {
    pub content: Vec<char>,
    pub style: Style,
}

impl View for Span {
    type V = SpanView;

    open spec fn view(&self) -> SpanView {
        (self.content@, self.style)
    }
}

/// A row of spans, drawn left to right.
#[derive(Clone, Debug, PartialEq, Eq)]
pub struct Line {
    pub spans: Vec<Span>,
}

impl View for Line {
    type V = LineView;

    open spec fn view(&self) -> LineView {
        self.spans@.map_values(|s: Span| s@)
    }
}

/// Number of terminal columns that text occupies.
pub uninterp spec fn display_width(s: Seq<char>) -> nat;

/// Relies on `ratatui::text::Span::width`: the columns the text takes on a terminal.
#[verifier::external_body]
pub(crate) fn text_width(s: &Vec<char>) -> (r: usize)
    ensures
        r == display_width(s@),
        s@.len() == 0 ==> r == 0,
{
    let t: String = s.iter().collect();
    ratatui::text::Span::raw(t).width()
}

/// Relies on `str::chars`: the characters of a string, in order.
#[verifier::external_body]
pub(crate) fn chars_of(s: &str) -> (r: Vec<char>)
    ensures
        r@ == s@,
{
    s.chars().collect()
}

/// Relies on `String: FromIterator<char>`: the string of the characters, in order.
#[verifier::external_body]
pub(crate) fn string_of(s: &Vec<char>) -> (r: String)
    ensures
        r@ == s@,
{
    s.iter().collect()
}

pub open spec fn styled_cell(c: char, style: Style) -> Cell {
    Cell { symbol: c, style }
}

/// The cells a span draws: one per character, all in its style.
pub open spec fn span_cells(s: SpanView) -> Seq<Cell> {
    Seq::new(s.0.len(), |k: int| styled_cell(s.0[k], s.1))
}

pub proof fn lemma_span_cells(s: SpanView)
    ensures
        span_cells(s).len() == s.0.len(),
        forall|k: int| 0 <= k < s.0.len() ==> #[trigger] span_cells(s)[k] == (Cell { symbol: s.0[k], style: s.1 }),
{
}

/// The cells a line draws, left to right.
pub open spec fn line_cells(l: LineView) -> Seq<Cell>
    decreases l.len(),
{
    if l.len() == 0 {
        Seq::empty()
    } else {
        line_cells(l.drop_last()) + span_cells(l.last())
    }
}

/// The characters of a line without styles.
pub open spec fn plain_text(l: LineView) -> Seq<char>
    decreases l.len(),
{
    if l.len() == 0 {
        Seq::empty()
    } else {
        plain_text(l.drop_last()) + l.last().0
    }
}

/// Columns a line occupies: the widths of its spans added up.
pub open spec fn line_width(l: LineView) -> int
    decreases l.len(),
{
    if l.len() == 0 {
        0
    } else {
        line_width(l.drop_last()) + display_width(l.last().0)
    }
}

/// What a line drawn at `area` puts at `(x, y)`: its cells from the left on the
/// area's first row, cut at the area's edge.
pub open spec fn line_cell_at(l: LineView, area: Rect, x: int, y: int) -> Option<Cell> {
    if area.has(x, y) && y == area.y && x - area.x < line_cells(l).len() {
        Some(line_cells(l)[x - area.x])
    } else {
        None
    }
}

impl Span {
    pub fn raw(s: &str) -> (r: Span)
        ensures
            r@ == (s@, Style::plain()),
    {
        Span { content: chars_of(s), style: Style::new() }
    }

    pub fn styled(s: &str, style: Style) -> (r: Span)
        ensures
            r@ == (s@, style),
    {
        Span { content: chars_of(s), style }
    }

    pub fn width(&self) -> (r: usize)
        ensures
            r == display_width(self.content@),
    {
        text_width(&self.content)
    }

    /// A copy of the span.
    pub fn duplicate(&self) -> (r: Span)
        ensures
            r@ == self@,
    {
        let mut content: Vec<char> = Vec::new();
        let mut k: usize = 0;
        while k < self.content.len()
            invariant
                k <= self.content@.len(),
                content@ == self.content@.take(k as int),
            decreases self.content@.len() - k,
        {
            content.push(self.content[k]);
            k = k + 1;
            assert(content@ =~= self.content@.take(k as int));
        }
        assert(self.content@.take(k as int) =~= self.content@);
        Span { content, style: self.style }
    }

    /// The span's text as a string.
    pub fn text(&self) -> (r: String)
        ensures
            r@ == self.content@,
    {
        string_of(&self.content)
    }
}

impl Line {
    pub fn new() -> (r: Line)
        ensures
            r@ == Seq::<SpanView>::empty(),
    {
        let r = Line { spans: Vec::new() };
        assert(r@ =~= Seq::<SpanView>::empty());
        r
    }

    /// A line of plain spans, one per string.
    pub fn from_strs(parts: &[&str]) -> (r: Line)
        ensures
            r@.len() == parts@.len(),
            forall|i: int| 0 <= i < parts@.len() ==> #[trigger] r@[i] == (parts@[i]@, Style::plain()),
    {
        let mut spans: Vec<Span> = Vec::new();
        let mut i: usize = 0;
        while i < parts.len()
            invariant
                i <= parts@.len(),
                spans@.len() == i,
                forall|j: int| 0 <= j < i ==> #[trigger] spans@[j]@ == (parts@[j]@, Style::plain()),
            decreases parts@.len() - i,
        {
            spans.push(Span::raw(parts[i]));
            i = i + 1;
        }
        Line { spans }
    }

    /// A copy of the line.
    pub fn duplicate(&self) -> (r: Line)
        ensures
            r@ == self@,
    {
        let mut spans: Vec<Span> = Vec::new();
        let mut k: usize = 0;
        while k < self.spans.len()
            invariant
                k <= self.spans@.len(),
                spans@.len() == k,
                forall|i: int| 0 <= i < k ==> #[trigger] spans@[i]@ == self.spans@[i]@,
            decreases self.spans@.len() - k,
        {
            spans.push(self.spans[k].duplicate());
            k = k + 1;
        }
        let r = Line { spans };
        assert(r@ =~= self@);
        r
    }

    /// The characters of the line without styles.
    pub fn plain(&self) -> (r: Vec<char>)
        ensures
            r@ == plain_text(self@),
    {
        let mut r: Vec<char> = Vec::new();
        let mut i: usize = 0;
        while i < self.spans.len()
            invariant
                i <= self.spans@.len(),
                r@ == plain_text(self@.take(i as int)),
            decreases self.spans@.len() - i,
        {
            assert(self@.take(i + 1).drop_last() =~= self@.take(i as int));
            let mut j: usize = 0;
            let ghost base = r@;
            while j < self.spans[i].content.len()
                invariant
                    i < self.spans@.len(),
                    j <= self.spans@[i as int].content@.len(),
                    r@ == base + self.spans@[i as int].content@.take(j as int),
                decreases self.spans@[i as int].content@.len() - j,
            {
                r.push(self.spans[i].content[j]);
                j = j + 1;
                assert(r@ =~= base + self.spans@[i as int].content@.take(j as int));
            }
            assert(self.spans@[i as int].content@.take(j as int) =~= self.spans@[i as int].content@);
            i = i + 1;
        }
        assert(self@.take(i as int) =~= self@);
        r
    }

    /// The line's text as a string.
    pub fn text(&self) -> (r: String)
        ensures
            r@ == plain_text(self@),
    {
        let p = self.plain();
        string_of(&p)
    }

    /// The cells the line draws, left to right.
    pub fn cells(&self) -> (r: Vec<Cell>)
        ensures
            r@ == line_cells(self@),
    {
        let mut r: Vec<Cell> = Vec::new();
        let mut i: usize = 0;
        while i < self.spans.len()
            invariant
                i <= self.spans@.len(),
                r@ == line_cells(self@.take(i as int)),
            decreases self.spans@.len() - i,
        {
            assert(self@.take(i + 1).drop_last() =~= self@.take(i as int));
            let mut j: usize = 0;
            let ghost base = r@;
            let style = self.spans[i].style;
            while j < self.spans[i].content.len()
                invariant
                    i < self.spans@.len(),
                    style == self.spans@[i as int].style,
                    self@[i as int] == (self.spans@[i as int].content@, style),
                    j <= self.spans@[i as int].content@.len(),
                    r@ == base + span_cells(self@[i as int]).take(j as int),
                decreases self.spans@[i as int].content@.len() - j,
            {
                proof {
                    lemma_span_cells(self@[i as int]);
                }
                assert(span_cells(self@[i as int])[j as int] == Cell {
                    symbol: self.spans@[i as int].content@[j as int],
                    style,
                });
                r.push(Cell { symbol: self.spans[i].content[j], style });
                j = j + 1;
                assert(r@ =~= base + span_cells(self@[i as int]).take(j as int));
            }
            proof {
                lemma_span_cells(self@[i as int]);
            }
            assert(span_cells(self@[i as int]).take(j as int) =~= span_cells(self@[i as int]));
            i = i + 1;
        }
        assert(self@.take(i as int) =~= self@);
        r
    }

    /// Columns the line occupies, capped at the largest coordinate.
    pub fn width(&self) -> (r: u16)
        ensures
            r == min_width(line_width(self@)),
    {
        let mut total: u16 = 0;
        let mut i: usize = 0;
        while i < self.spans.len()
            invariant
                i <= self.spans@.len(),
                total == min_width(line_width(self@.take(i as int))),
            decreases self.spans@.len() - i,
        {
            assert(self@.take(i + 1).drop_last() =~= self@.take(i as int));
            proof {
                lemma_line_width_nonneg(self@.take(i as int));
            }
            let w = self.spans[i].width();
            total = if w >= 65535 {
                65535
            } else {
                total.saturating_add(w as u16)
            };
            i = i + 1;
        }
        assert(self@.take(i as int) =~= self@);
        total
    }
}

pub open spec fn min_width(w: int) -> u16 {
    if w >= 65535 {
        65535
    } else {
        w as u16
    }
}

pub proof fn lemma_line_width_nonneg(l: LineView)
    ensures
        line_width(l) >= 0,
    decreases l.len(),
{
    if l.len() > 0 {
        lemma_line_width_nonneg(l.drop_last());
    }
}

} // verus!
