use vstd::prelude::*;
use crate::buffer::Style;
use crate::line::{display_width, line_width, min_width, plain_text, Line, LineView, Span, SpanView};
use crate::rect::Rect;
use crate::store::{PlacementView, Storeable, Store, Widget, WidgetView};

verus! {

/// The glyph that marks text cut off at the last allowed line.
pub const ELLIPSIS: char = '…';

/// The lines of `content` after a greedy (first-fit) word wrap at `width` columns.
pub uninterp spec fn wrapped(content: Seq<char>, width: nat) -> Seq<Seq<char>>;

/// The character has the Unicode White_Space property.
pub open spec fn is_white_space(c: char) -> bool {
    let u = c as u32;
    (0x9 <= u <= 0xD) || u == 0x20 || u == 0x85 || u == 0xA0 || u == 0x1680 || (0x2000 <= u
        <= 0x200A) || u == 0x2028 || u == 0x2029 || u == 0x202F || u == 0x205F || u == 0x3000
}

/// The character is a control character (general category Cc).
pub open spec fn is_control(c: char) -> bool {
    let u = c as u32;
    u <= 0x1F || (0x7F <= u <= 0x9F)
}

/// Relies on `textwrap::wrap` with the first-fit algorithm: greedy word wrap
/// of the text at `width` columns, where a word longer than the width is
/// broken at the column boundary.
#[verifier::external_body]
fn wrap_text(content: &Vec<char>, width: usize) -> (r: Vec<Vec<char>>)
    ensures
        chars_view(r@) == wrapped(content@, width as nat),
{
    let s: String = content.iter().collect();
    let options = textwrap::Options::new(width).wrap_algorithm(textwrap::WrapAlgorithm::FirstFit);
    textwrap::wrap(&s, options).iter().map(|l| l.chars().collect()).collect()
}

/// Whether `c` is white space, as `char::is_whitespace` defines it.
pub fn white_space(c: char) -> (r: bool)
    ensures
        r == is_white_space(c),
{
    let u = c as u32;
    (0x9 <= u && u <= 0xD) || u == 0x20 || u == 0x85 || u == 0xA0 || u == 0x1680 || (0x2000 <= u
        && u <= 0x200A) || u == 0x2028 || u == 0x2029 || u == 0x202F || u == 0x205F || u == 0x3000
}

/// Whether `c` is a control character, as `char::is_control` defines it.
pub fn control(c: char) -> (r: bool)
    ensures
        r == is_control(c),
{
    let u = c as u32;
    u <= 0x1F || (0x7F <= u && u <= 0x9F)
}

pub open spec fn chars_view(v: Seq<Vec<char>>) -> Seq<Seq<char>> {
    v.map_values(|l: Vec<char>| l@)
}

pub open spec fn lines_view(v: Seq<Line>) -> Seq<LineView> {
    v.map_values(|l: Line| l@)
}

/// Number of characters at the end of `s` that are white space but no control character.
pub open spec fn trailing_space_len(s: Seq<char>) -> nat
    decreases s.len(),
{
    if s.len() == 0 {
        0
    } else if is_white_space(s.last()) && !is_control(s.last()) {
        1 + trailing_space_len(s.drop_last())
    } else {
        0
    }
}

/// The white space that ends `s`, stopping at a control character.
pub open spec fn trailing_space(s: Seq<char>) -> Seq<char> {
    s.skip(s.len() - trailing_space_len(s))
}

/// Number of white-space characters at the end of `s`.
pub open spec fn trailing_white_len(s: Seq<char>) -> nat
    decreases s.len(),
{
    if s.len() == 0 {
        0
    } else if is_white_space(s.last()) {
        1 + trailing_white_len(s.drop_last())
    } else {
        0
    }
}

/// `s` without the white space that ends it.
pub open spec fn trimmed(s: Seq<char>) -> Seq<char> {
    s.take(s.len() - trailing_white_len(s))
}

/// Wrapped lines `w` of `content`, with the white space that ended `content`
/// put back on the last of them.
pub open spec fn restored(w: Seq<Seq<char>>, content: Seq<char>) -> Seq<Seq<char>> {
    if w.len() == 0 {
        w
    } else {
        w.update(w.len() - 1, w.last() + trailing_space(content))
    }
}

/// The wrapped lines of `content`, with the white space that ended `content`
/// put back on the last of them.
pub open spec fn fragments(content: Seq<char>, width: nat) -> Seq<Seq<char>> {
    restored(wrapped(content, width), content)
}

/// Adds a span to the last line, or to a new line when asked or when there is none.
pub open spec fn push_span(lines: Seq<LineView>, s: SpanView, new_line: bool) -> Seq<LineView> {
    if new_line || lines.len() == 0 {
        lines.push(seq![s])
    } else {
        lines.update(lines.len() - 1, lines.last().push(s))
    }
}

/// A line whose text lost its trailing white space: spans are trimmed from
/// the last one back, and a span trimmed to nothing stays, empty.
pub open spec fn trim_line(l: LineView) -> LineView
    decreases l.len(),
{
    if l.len() == 0 {
        l
    } else {
        let t = trimmed(l.last().0);
        if t.len() == 0 {
            trim_line(l.drop_last()).push((t, l.last().1))
        } else {
            l.update(l.len() - 1, (t, l.last().1))
        }
    }
}

pub open spec fn trim_lines(ls: Seq<LineView>) -> Seq<LineView> {
    ls.map_values(|l: LineView| trim_line(l))
}

/// The last visible character of a line that has one replaced by an ellipsis;
/// the spans after it are empty and stay so.
pub open spec fn mark_last_visible(l: LineView) -> LineView
    decreases l.len(),
{
    if l.len() == 0 {
        l
    } else if l.last().0.len() > 0 {
        l.update(l.len() - 1, (l.last().0.drop_last().push(ELLIPSIS), l.last().1))
    } else {
        mark_last_visible(l.drop_last()).push(l.last())
    }
}

/// A cut line: its last visible character replaced by an ellipsis, or, when
/// it shows nothing, an ellipsis as the text of its last span (of a span of
/// its own when it has none).
pub open spec fn mark_cut(l: LineView) -> LineView {
    if l.len() == 0 {
        seq![(seq![ELLIPSIS], Style::plain())]
    } else if plain_text(l).len() == 0 {
        l.update(l.len() - 1, (seq![ELLIPSIS], l.last().1))
    } else {
        mark_last_visible(l)
    }
}

/// The last line marked as cut off; with no line, a line of its own.
pub open spec fn with_ellipsis(ls: Seq<LineView>) -> Seq<LineView> {
    if ls.len() == 0 {
        seq![mark_cut(Seq::empty())]
    } else {
        ls.update(ls.len() - 1, mark_cut(ls.last()))
    }
}

pub open spec fn last_plain(lines: Seq<LineView>) -> Seq<char> {
    if lines.len() == 0 {
        Seq::empty()
    } else {
        plain_text(lines.last())
    }
}

/// Number of leading characters, from `k` on, that `a` and `b` share.
pub open spec fn common_len(a: Seq<char>, b: Seq<char>, k: nat) -> nat
    decreases a.len() - k,
{
    if k < a.len() && k < b.len() && a[k as int] == b[k as int] {
        common_len(a, b, k + 1)
    } else {
        k
    }
}

/// The first `k` characters of a line, each in its span's style; spans past
/// them are dropped.
pub open spec fn truncate_line(l: LineView, k: nat) -> LineView
    decreases l.len(),
{
    if l.len() == 0 {
        l
    } else {
        let p = l.drop_last();
        let pl = plain_text(p).len();
        if pl >= k {
            truncate_line(p, k)
        } else if plain_text(l).len() <= k {
            l
        } else {
            p.push((l.last().0.take(k - pl), l.last().1))
        }
    }
}

/// The last line replaced by the fragment `s`: the text it shares with `s`
/// keeps its styles, and the rest of `s` follows in `style`.
pub open spec fn replace_last(lines: Seq<LineView>, s: Seq<char>, style: Style) -> Seq<LineView> {
    let k = common_len(last_plain(lines), s, 0);
    let t = truncate_line(lines.last(), k);
    lines.update(
        lines.len() - 1,
        if k < s.len() {
            t.push((s.skip(k as int), style))
        } else {
            t
        },
    )
}

/// One wrapped fragment of a span: the first extends the last line past the
/// text it already held, or replaces the last line where the wrap moved
/// part of its text on; later ones open new lines while fewer than
/// `max_height` exist. The flag is set when the line limit stops the reflow.
pub open spec fn fragment_step(
    lines: Seq<LineView>,
    i: int,
    s: Seq<char>,
    last: Seq<char>,
    style: Style,
    max_height: nat,
) -> (Seq<LineView>, bool) {
    if i == 0 {
        if last.is_prefix_of(s) {
            (push_span(lines, (s.skip(last.len() as int), style), false), false)
        } else {
            (replace_last(lines, s, style), false)
        }
    } else if lines.len() < max_height {
        (push_span(lines, (s, style), true), false)
    } else {
        (lines, true)
    }
}

pub open spec fn fragments_from(
    frags: Seq<Seq<char>>,
    i: int,
    lines: Seq<LineView>,
    last: Seq<char>,
    style: Style,
    max_height: nat,
) -> (Seq<LineView>, bool)
    decreases frags.len() - i,
{
    if i < 0 || i >= frags.len() {
        (lines, false)
    } else {
        let (next, stop) = fragment_step(lines, i, frags[i], last, style, max_height);
        if stop {
            (next, true)
        } else {
            fragments_from(frags, i + 1, next, last, style, max_height)
        }
    }
}

/// One span: the last line's text and the span's text are wrapped together,
/// and the fragments are laid out.
pub open spec fn span_step(lines: Seq<LineView>, s: SpanView, width: nat, max_height: nat) -> (
    Seq<LineView>,
    bool,
) {
    let last = last_plain(lines);
    fragments_from(fragments(last + s.0, width), 0, lines, last, s.1, max_height)
}

pub open spec fn spans_from(
    spans: Seq<SpanView>,
    j: int,
    lines: Seq<LineView>,
    width: nat,
    max_height: nat,
) -> (Seq<LineView>, bool)
    decreases spans.len() - j,
{
    if j < 0 || j >= spans.len() {
        (lines, false)
    } else {
        let (next, stop) = span_step(lines, spans[j], width, max_height);
        if stop {
            (next, true)
        } else {
            spans_from(spans, j + 1, next, width, max_height)
        }
    }
}

/// The lines of `spans` reflowed into at most `max_height` lines of `width`
/// columns: trailing white space trimmed from each line, and an ellipsis on
/// the last line when text was cut off.
pub open spec fn reflow(spans: Seq<SpanView>, width: nat, max_height: nat) -> Seq<LineView> {
    if max_height == 0 {
        Seq::empty()
    } else {
        let (lines, cut) = spans_from(spans, 0, Seq::empty(), width, max_height);
        if cut {
            with_ellipsis(trim_lines(lines))
        } else {
            trim_lines(lines)
        }
    }
}

/// The white space that ends `s`, stopping at a control character.
pub fn trailing_space_of(s: &Vec<char>) -> (r: Vec<char>)
    ensures
        r@ == trailing_space(s@),
{
    let mut n: usize = s.len();
    assert(s@.take(n as int) =~= s@);
    let mut done = false;
    while n > 0 && !done
        invariant
            n <= s@.len(),
            done ==> trailing_space_len(s@.take(n as int)) == 0,
            trailing_space_len(s@) == (s@.len() - n) + trailing_space_len(s@.take(n as int)),
            forall|k: int| n <= k < s@.len() ==> is_white_space(#[trigger] s@[k]) && !is_control(s@[k]),
        decreases n + (if done { 0int } else { 1int }),
    {
        let c = s[n - 1];
        assert(s@.take(n as int).drop_last() =~= s@.take(n - 1));
        assert(s@.take(n as int).last() == c);
        if !white_space(c) || control(c) {
            done = true;
        } else {
            n = n - 1;
        }
    }
    proof {
        if n == 0 {
            assert(s@.take(0) =~= Seq::<char>::empty());
        }
    }
    assert(trailing_space_len(s@.take(n as int)) == 0);
    let mut r: Vec<char> = Vec::new();
    let mut k: usize = n;
    while k < s.len()
        invariant
            n <= k <= s@.len(),
            r@ == s@.subrange(n as int, k as int),
        decreases s@.len() - k,
    {
        r.push(s[k]);
        k = k + 1;
        assert(r@ =~= s@.subrange(n as int, k as int));
    }
    assert(n == s@.len() - trailing_space_len(s@));
    assert(r@ =~= trailing_space(s@));
    r
}

/// `s` without the white space that ends it.
pub fn trim_end(s: &Vec<char>) -> (r: Vec<char>)
    ensures
        r@ == trimmed(s@),
{
    let mut n: usize = s.len();
    assert(s@.take(n as int) =~= s@);
    let mut done = false;
    while n > 0 && !done
        invariant
            n <= s@.len(),
            done ==> trailing_white_len(s@.take(n as int)) == 0,
            trailing_white_len(s@) == (s@.len() - n) + trailing_white_len(s@.take(n as int)),
        decreases n + (if done { 0int } else { 1int }),
    {
        let c = s[n - 1];
        assert(s@.take(n as int).drop_last() =~= s@.take(n - 1));
        assert(s@.take(n as int).last() == c);
        if !white_space(c) {
            done = true;
        } else {
            n = n - 1;
        }
    }
    proof {
        if n == 0 {
            assert(s@.take(0) =~= Seq::<char>::empty());
        }
    }
    assert(trailing_white_len(s@.take(n as int)) == 0);
    let mut r: Vec<char> = Vec::new();
    let mut k: usize = 0;
    while k < n
        invariant
            k <= n <= s@.len(),
            r@ == s@.take(k as int),
        decreases n - k,
    {
        r.push(s[k]);
        k = k + 1;
        assert(r@ =~= s@.take(k as int));
    }
    r
}

/// `a` followed by `b`.
pub fn concat(a: &Vec<char>, b: &Vec<char>) -> (r: Vec<char>)
    ensures
        r@ == a@ + b@,
{
    let mut r: Vec<char> = Vec::new();
    let mut k: usize = 0;
    while k < a.len()
        invariant
            k <= a@.len(),
            r@ == a@.take(k as int),
        decreases a@.len() - k,
    {
        r.push(a[k]);
        k = k + 1;
        assert(r@ =~= a@.take(k as int));
    }
    let mut k: usize = 0;
    while k < b.len()
        invariant
            k <= b@.len(),
            r@ == a@ + b@.take(k as int),
        decreases b@.len() - k,
    {
        r.push(b[k]);
        k = k + 1;
        assert(r@ =~= a@ + b@.take(k as int));
    }
    assert(b@.take(k as int) =~= b@);
    r
}

/// What follows `prefix` in `s`, when `s` starts with it.
pub fn strip_prefix(s: &Vec<char>, prefix: &Vec<char>) -> (r: Option<Vec<char>>)
    ensures
        r is Some <==> prefix@.is_prefix_of(s@),
        r matches Some(rest) ==> rest@ == s@.skip(prefix@.len() as int),
{
    if prefix.len() > s.len() {
        return None;
    }
    let mut k: usize = 0;
    while k < prefix.len()
        invariant
            prefix@.len() <= s@.len(),
            k <= prefix@.len(),
            forall|i: int| 0 <= i < k ==> prefix@[i] == s@[i],
        decreases prefix@.len() - k,
    {
        if prefix[k] != s[k] {
            return None;
        }
        k = k + 1;
    }
    assert(prefix@ =~= s@.take(prefix@.len() as int));
    let mut rest: Vec<char> = Vec::new();
    let mut k: usize = prefix.len();
    while k < s.len()
        invariant
            prefix@.len() <= k <= s@.len(),
            rest@ == s@.subrange(prefix@.len() as int, k as int),
        decreases s@.len() - k,
    {
        rest.push(s[k]);
        k = k + 1;
        assert(rest@ =~= s@.subrange(prefix@.len() as int, k as int));
    }
    Some(rest)
}

/// Puts the white space that ended `content` back on the last of its wrapped lines.
pub fn restore_trailing_space(wrapped: Vec<Vec<char>>, content: &Vec<char>) -> (r: Vec<Vec<char>>)
    ensures
        chars_view(r@) == restored(chars_view(wrapped@), content@),
{
    let mut wrapped = wrapped;
    let ghost w = chars_view(wrapped@);
    let n = wrapped.len();
    if n > 0 {
        let tail = trailing_space_of(content);
        let last = wrapped.pop().unwrap();
        let joined = concat(&last, &tail);
        wrapped.push(joined);
        assert(chars_view(wrapped@) =~= w.update(w.len() - 1, w.last() + trailing_space(content@)));
    } else {
        assert(chars_view(wrapped@) =~= w);
    }
    wrapped
}

/// The fragments of `content` wrapped at `width` columns, the white space
/// that ended `content` put back on the last one.
pub fn wrap_and_restore_trailing_space(content: &Vec<char>, width: usize) -> (r: Vec<Vec<char>>)
    ensures
        chars_view(r@) == fragments(content@, width as nat),
{
    let wrapped = wrap_text(content, width);
    restore_trailing_space(wrapped, content)
}

/// Lays out one span after the last line's text followed by the span's text
/// was wrapped into `wrapped`: the first fragment extends the last line past
/// its old text, later ones open lines while fewer than `max_height` exist.
/// The flag tells that the line limit cut the text off.
pub fn lay_out_span(lines: Vec<Line>, span: &Span, wrapped: Vec<Vec<char>>, max_height: usize) -> (r: (
    Vec<Line>,
    bool,
))
    ensures
        (lines_view(r.0@), r.1) == fragments_from(
            restored(chars_view(wrapped@), last_plain(lines_view(lines@)) + span.content@),
            0,
            lines_view(lines@),
            last_plain(lines_view(lines@)),
            span.style,
            max_height as nat,
        ),
        lines@.len() <= max_height && max_height > 0 ==> r.0@.len() <= max_height,
{
    let ghost l0 = lines_view(lines@);
    let ghost n0 = lines@.len();
    let ghost wv = chars_view(wrapped@);
    let ghost mh = max_height as nat;
    let mut out = lines;
    let style = span.style;
    let last: Vec<char> = if out.len() == 0 {
        Vec::new()
    } else {
        out[out.len() - 1].plain()
    };
    assert(last@ == last_plain(l0));
    let content = concat(&last, &span.content);
    let frags = restore_trailing_space(wrapped, &content);
    let ghost fv = chars_view(frags@);
    let ghost bounded = n0 <= max_height && max_height > 0;
    assert(fv == restored(wv, last_plain(l0) + span.content@));
    let n = frags.len();
    let mut rest = frags;
    let mut i: usize = 0;
    while i < n
        invariant
            mh == max_height as nat,
            l0 == lines_view(lines@),
            n0 == lines@.len(),
            wv == chars_view(wrapped@),
            bounded == (n0 <= max_height && max_height > 0),
            fv == restored(wv, last_plain(l0) + span.content@),
            last@ == last_plain(l0),
            style == span.style,
            n == fv.len(),
            i <= n,
            rest@.len() == n - i,
            forall|k: int| 0 <= k < n - i ==> #[trigger] rest@[k]@ == fv[i + k],
            bounded ==> out@.len() <= max_height && max_height > 0,
            i == 0 ==> lines_view(out@) == l0,
            fragments_from(fv, 0, l0, last@, style, mh) == fragments_from(
                fv,
                i as int,
                lines_view(out@),
                last@,
                style,
                mh,
            ),
        decreases n - i,
    {
        let f = rest.remove(0);
        assert(f@ == fv[i as int]);
        if i == 0 {
            match strip_prefix(&f, &last) {
                Some(tail) => {
                    push_span_to(&mut out, Span { content: tail, style }, false);
                },
                None => {
                    replace_last_line(&mut out, &f, &last, style);
                },
            }
        } else if out.len() < max_height {
            push_span_to(&mut out, Span { content: f, style }, true);
        } else {
            assert(fragments_from(fv, i as int, lines_view(out@), last@, style, mh) == (
                lines_view(out@),
                true,
            ));
            return (out, true);
        }
        i = i + 1;
    }
    (out, false)
}

/// Number of leading characters that `a` and `b` share.
fn common_prefix_len(a: &Vec<char>, b: &Vec<char>) -> (r: usize)
    ensures
        r == common_len(a@, b@, 0),
{
    let mut k: usize = 0;
    while k < a.len() && k < b.len() && a[k] == b[k]
        invariant
            k <= a@.len(),
            common_len(a@, b@, 0) == common_len(a@, b@, k as nat),
        decreases a@.len() - k,
    {
        k = k + 1;
    }
    k
}

/// The characters of `s` from position `k` on.
fn tail_from(s: &Vec<char>, k: usize) -> (r: Vec<char>)
    requires
        k <= s@.len(),
    ensures
        r@ == s@.skip(k as int),
{
    let mut r: Vec<char> = Vec::new();
    let mut i: usize = k;
    while i < s.len()
        invariant
            k <= i <= s@.len(),
            r@ == s@.subrange(k as int, i as int),
        decreases s@.len() - i,
    {
        r.push(s[i]);
        i = i + 1;
        assert(r@ =~= s@.subrange(k as int, i as int));
    }
    r
}

/// The first `k` characters of `l`, each in its span's style.
fn truncate_line_to(l: Line, k: usize) -> (r: Line)
    ensures
        r@ == truncate_line(l@, k as nat),
{
    let ghost lv = l@;
    let mut total = l.plain().len();
    let mut spans = l.spans;
    assert(spans@.map_values(|s: Span| s@) =~= lv);
    let mut done = false;
    while spans.len() > 0 && !done
        invariant
            done ==> truncate_line(lv, k as nat) == spans@.map_values(|s: Span| s@),
            !done ==> truncate_line(lv, k as nat) == truncate_line(spans@.map_values(|s: Span| s@), k as nat),
            !done ==> total == plain_text(spans@.map_values(|s: Span| s@)).len(),
        decreases spans@.len() + (if done { 0int } else { 1int }),
    {
        let ghost cur = spans@.map_values(|s: Span| s@);
        let last = spans.pop().unwrap();
        assert(cur.drop_last() =~= spans@.map_values(|s: Span| s@));
        assert(cur.last() == last@);
        assert(plain_text(cur) == plain_text(cur.drop_last()) + last.content@);
        let pl = total - last.content.len();
        if pl >= k {
            total = pl;
        } else if total <= k {
            spans.push(last);
            assert(spans@.map_values(|s: Span| s@) =~= cur);
            done = true;
        } else {
            let mut kept: Vec<char> = Vec::new();
            let mut i: usize = 0;
            while i < k - pl
                invariant
                    pl < k,
                    k - pl <= last.content@.len(),
                    i <= k - pl,
                    kept@ == last.content@.take(i as int),
                decreases k - pl - i,
            {
                kept.push(last.content[i]);
                i = i + 1;
                assert(kept@ =~= last.content@.take(i as int));
            }
            let ghost kv = kept@;
            spans.push(Span { content: kept, style: last.style });
            assert(spans@.map_values(|s: Span| s@) =~= cur.drop_last().push((kv, last.style)));
            done = true;
        }
    }
    if !done {
        assert(spans@.map_values(|s: Span| s@) =~= Seq::<SpanView>::empty());
    }
    let r = Line { spans };
    r
}

/// Replaces the last line by the fragment `f`, keeping the styles of the
/// text it shares with the old line `last`.
fn replace_last_line(lines: &mut Vec<Line>, f: &Vec<char>, last: &Vec<char>, style: Style)
    requires
        old(lines)@.len() > 0,
        last@ == last_plain(lines_view(old(lines)@)),
    ensures
        lines_view(final(lines)@) == replace_last(lines_view(old(lines)@), f@, style),
        final(lines)@.len() == old(lines)@.len(),
{
    let ghost before = lines_view(lines@);
    let k = common_prefix_len(last, f);
    let line = lines.pop().unwrap();
    assert(line@ == before.last());
    let mut t = truncate_line_to(line, k);
    let ghost tv = t@;
    if k < f.len() {
        proof {
            assert(k <= f@.len());
        }
        let rest = tail_from(f, k);
        t.spans.push(Span { content: rest, style });
        assert(t@ =~= tv.push((f@.skip(k as int), style)));
    }
    lines.push(t);
    assert(lines_view(lines@) =~= replace_last(before, f@, style));
}

/// Adds `span` to the last line, or to a new line when `new_line` is set or
/// there is no line yet.
fn push_span_to(lines: &mut Vec<Line>, span: Span, new_line: bool)
    ensures
        lines_view(final(lines)@) == push_span(lines_view(old(lines)@), span@, new_line),
        final(lines)@.len() == if new_line || old(lines)@.len() == 0 {
            old(lines)@.len() + 1
        } else {
            old(lines)@.len()
        },
{
    let ghost before = lines_view(lines@);
    let ghost sv = span@;
    if new_line || lines.len() == 0 {
        let mut spans: Vec<Span> = Vec::new();
        spans.push(span);
        let line = Line { spans };
        assert(line@ =~= seq![sv]);
        lines.push(line);
        assert(lines_view(lines@) =~= before.push(seq![sv]));
    } else {
        let mut last = lines.pop().unwrap();
        let ghost lv = last@;
        last.spans.push(span);
        assert(last@ =~= lv.push(sv));
        lines.push(last);
        assert(lines_view(lines@) =~= before.update(before.len() - 1, before.last().push(sv)));
    }
}

/// `l` without the white space that ends its text.
fn trim_line_end(l: Line) -> (r: Line)
    ensures
        r@ == trim_line(l@),
{
    let ghost lv = l@;
    let mut spans = l.spans;
    let mut tail: Vec<Span> = Vec::new();
    let ghost empty_tail = Seq::<SpanView>::empty();
    assert(spans@.map_values(|s: Span| s@) =~= lv);
    let mut done = false;
    while spans.len() > 0 && !done
        invariant
            done ==> trim_line(lv) == spans@.map_values(|s: Span| s@) + tail@.map_values(
                |s: Span| s@,
            ),
            !done ==> trim_line(lv) == trim_line(spans@.map_values(|s: Span| s@)) + tail@.map_values(
                |s: Span| s@,
            ),
        decreases spans@.len() + (if done { 0int } else { 1int }),
    {
        let ghost cur = spans@.map_values(|s: Span| s@);
        let ghost tv = tail@.map_values(|s: Span| s@);
        let last = spans.pop().unwrap();
        assert(cur.drop_last() =~= spans@.map_values(|s: Span| s@));
        assert(cur.last() == last@);
        let t = trim_end(&last.content);
        if t.len() == 0 {
            let ghost piece = (t@, last.style);
            tail.insert(0, Span { content: t, style: last.style });
            assert(tail@.map_values(|s: Span| s@) =~= seq![piece] + tv);
            assert(trim_line(cur) == trim_line(cur.drop_last()).push(piece));
            assert(trim_line(cur.drop_last()).push(piece) + tv =~= trim_line(cur.drop_last()) + (
            seq![piece] + tv));
        } else {
            spans.push(Span { content: t, style: last.style });
            assert(spans@.map_values(|s: Span| s@) =~= cur.update(cur.len() - 1, (t@, last.style)));
            done = true;
        }
    }
    if !done {
        assert(spans@.map_values(|s: Span| s@) =~= Seq::<SpanView>::empty());
        assert(trim_line(spans@.map_values(|s: Span| s@)) =~= Seq::<SpanView>::empty());
    }
    let ghost sv = spans@.map_values(|s: Span| s@);
    let ghost tv = tail@.map_values(|s: Span| s@);
    spans.append(&mut tail);
    let r = Line { spans };
    assert(r@ =~= sv + tv);
    r
}

/// Every line without the white space that ends its text.
fn trim_all(lines: Vec<Line>) -> (r: Vec<Line>)
    ensures
        r@.len() == lines@.len(),
        lines_view(r@) == trim_lines(lines_view(lines@)),
{
    let ghost lv = lines_view(lines@);
    let mut r: Vec<Line> = Vec::new();
    let mut rest = lines;
    let n = rest.len();
    let mut k: usize = 0;
    while k < n
        invariant
            n == lv.len(),
            k <= n,
            rest@.len() == n - k,
            forall|i: int| 0 <= i < n - k ==> #[trigger] rest@[i]@ == lv[k + i],
            r@.len() == k,
            forall|i: int| 0 <= i < k ==> #[trigger] r@[i]@ == trim_line(lv[i]),
        decreases n - k,
    {
        let l = rest.remove(0);
        assert(l@ == lv[k as int]);
        let t = trim_line_end(l);
        r.push(t);
        k = k + 1;
    }
    assert(lines_view(r@) =~= trim_lines(lv));
    r
}

/// `l` marked as cut off: its last visible character replaced by an ellipsis.
fn mark_line_cut(l: Line) -> (r: Line)
    ensures
        r@ == mark_cut(l@),
{
    let ghost lv = l@;
    if l.spans.len() == 0 {
        let mut spans: Vec<Span> = Vec::new();
        let mark = vec![ELLIPSIS];
        assert(mark@ =~= seq![ELLIPSIS]);
        spans.push(Span { content: mark, style: Style::new() });
        let r = Line { spans };
        assert(r@ =~= mark_cut(lv));
        return r;
    }
    let total = l.plain().len();
    let mut spans = l.spans;
    assert(spans@.map_values(|s: Span| s@) =~= lv);
    if total == 0 {
        let last = spans.pop().unwrap();
        assert(lv.last() == last@);
        let mark = vec![ELLIPSIS];
        assert(mark@ =~= seq![ELLIPSIS]);
        spans.push(Span { content: mark, style: last.style });
        let r = Line { spans };
        assert(r@ =~= lv.update(lv.len() - 1, (seq![ELLIPSIS], lv.last().1)));
        return r;
    }
    let mut tail: Vec<Span> = Vec::new();
    let mut done = false;
    while spans.len() > 0 && !done
        invariant
            done ==> mark_cut(lv) == spans@.map_values(|s: Span| s@) + tail@.map_values(
                |s: Span| s@,
            ),
            !done ==> plain_text(spans@.map_values(|s: Span| s@)).len() > 0,
            !done ==> mark_cut(lv) == mark_last_visible(spans@.map_values(|s: Span| s@)) + tail@.map_values(
                |s: Span| s@,
            ),
        decreases spans@.len() + (if done { 0int } else { 1int }),
    {
        let ghost cur = spans@.map_values(|s: Span| s@);
        let ghost tv = tail@.map_values(|s: Span| s@);
        let mut last = spans.pop().unwrap();
        assert(cur.drop_last() =~= spans@.map_values(|s: Span| s@));
        assert(cur.last() == last@);
        if last.content.len() == 0 {
            let ghost piece = last@;
            assert(plain_text(cur) == plain_text(cur.drop_last()) + piece.0);
            assert(plain_text(cur) =~= plain_text(cur.drop_last()));
            tail.insert(0, last);
            assert(tail@.map_values(|s: Span| s@) =~= seq![piece] + tv);
            assert(mark_last_visible(cur.drop_last()).push(piece) + tv =~= mark_last_visible(
                cur.drop_last(),
            ) + (seq![piece] + tv));
        } else {
            let ghost before = last.content@;
            last.content.pop();
            last.content.push(ELLIPSIS);
            assert(last.content@ =~= before.drop_last().push(ELLIPSIS));
            spans.push(last);
            assert(spans@.map_values(|s: Span| s@) =~= cur.update(
                cur.len() - 1,
                (before.drop_last().push(ELLIPSIS), cur.last().1),
            ));
            done = true;
        }
    }
    if !done {
        assert(spans@.map_values(|s: Span| s@) =~= Seq::<SpanView>::empty());
    }
    let ghost sv = spans@.map_values(|s: Span| s@);
    let ghost tv = tail@.map_values(|s: Span| s@);
    spans.append(&mut tail);
    let r = Line { spans };
    assert(r@ =~= sv + tv);
    r
}

/// The last line marked as cut off.
fn set_ellipsis(lines: Vec<Line>) -> (r: Vec<Line>)
    ensures
        r@.len() == if lines@.len() == 0 {
            1
        } else {
            lines@.len()
        },
        lines_view(r@) == with_ellipsis(lines_view(lines@)),
{
    let ghost lv = lines_view(lines@);
    let mut lines = lines;
    if lines.len() == 0 {
        let marked = mark_line_cut(Line::new());
        lines.push(marked);
        assert(lines_view(lines@) =~= with_ellipsis(lv));
        return lines;
    }
    let last_line = lines.pop().unwrap();
    let marked = mark_line_cut(last_line);
    lines.push(marked);
    assert(lines_view(lines@) =~= with_ellipsis(lv));
    lines
}

/// Where each line of a text sits within the area it is given.
#[derive(Clone, Copy, Debug, PartialEq, Eq, Hash)]
pub enum Alignment {
    Left,
    Center,
    Right,
}

/// The lines of the last reflow and the size they were made for.
struct WrapCache {
    width: u16,
    height: u16,
    lines: Vec<Line>,
}

/// A paragraph of styled spans that reflows to the width and height it is given.
pub struct Text {
    spans: Vec<Span>,
    alignment: Option<Alignment>,
    ignore_if_empty: bool,
    cache: Option<WrapCache>,
}

impl Text {
    pub closed spec fn spans_view(&self) -> Seq<SpanView> {
        self.spans@.map_values(|s: Span| s@)
    }

    pub closed spec fn spec_alignment(&self) -> Option<Alignment> {
        self.alignment
    }

    pub closed spec fn spec_ignore_if_empty(&self) -> bool {
        self.ignore_if_empty
    }

    /// The size the cached lines were made for, if any.
    pub closed spec fn cached_size(&self) -> Option<(u16, u16)> {
        match self.cache {
            Some(c) => Some((c.width, c.height)),
            None => None,
        }
    }

    /// The cached lines hold the reflow for the size they were made for.
    #[verifier::type_invariant]
    spec fn cache_matches(&self) -> bool {
        match self.cache {
            Some(c) => lines_view(c.lines@) == reflow(
                self.spans_view(),
                c.width as nat,
                c.height as nat,
            ) && c.lines@.len() <= c.height,
            None => true,
        }
    }

    /// A text without spans, skipped when stored.
    pub fn new() -> (r: Text)
        ensures
            r.spans_view() == Seq::<SpanView>::empty(),
            r.spec_alignment() is None,
            r.spec_ignore_if_empty(),
    {
        let r = Text { spans: Vec::new(), alignment: None, ignore_if_empty: true, cache: None };
        assert(r.spans_view() =~= Seq::<SpanView>::empty());
        r
    }

    /// A text of the given spans, skipped when stored if none of them is visible.
    pub fn from_spans(spans: Vec<Span>) -> (r: Text)
        ensures
            r.spans_view() == spans@.map_values(|s: Span| s@),
            r.spec_alignment() is None,
            r.spec_ignore_if_empty(),
    {
        Text { spans, alignment: None, ignore_if_empty: true, cache: None }
    }

    /// A text of one plain span.
    pub fn raw(s: &str) -> (r: Text)
        ensures
            r.spans_view() == seq![(s@, crate::buffer::Style::plain())],
            r.spec_alignment() is None,
            r.spec_ignore_if_empty(),
    {
        let mut spans: Vec<Span> = Vec::new();
        spans.push(Span::raw(s));
        let r = Text::from_spans(spans);
        assert(r.spans_view() =~= seq![(s@, crate::buffer::Style::plain())]);
        r
    }

    /// A text of plain spans, one per string.
    pub fn from_strs(parts: &[&str]) -> (r: Text)
        ensures
            r.spans_view().len() == parts@.len(),
            forall|i: int|
                0 <= i < parts@.len() ==> #[trigger] r.spans_view()[i] == (
                    parts@[i]@,
                    crate::buffer::Style::plain(),
                ),
            r.spec_alignment() is None,
            r.spec_ignore_if_empty(),
    {
        let line = Line::from_strs(parts);
        Text::from_spans(line.spans)
    }

    pub fn alignment(self, alignment: Alignment) -> (r: Text)
        ensures
            r.spans_view() == self.spans_view(),
            r.spec_alignment() == Some(alignment),
            r.spec_ignore_if_empty() == self.spec_ignore_if_empty(),
    {
        proof {
            use_type_invariant(&self);
        }
        Text { alignment: Some(alignment), ..self }
    }

    /// Whether a text whose spans all have no visible width is skipped when stored.
    pub fn ignore_if_empty(self, value: bool) -> (r: Text)
        ensures
            r.spans_view() == self.spans_view(),
            r.spec_alignment() == self.spec_alignment(),
            r.spec_ignore_if_empty() == value,
    {
        proof {
            use_type_invariant(&self);
        }
        Text { ignore_if_empty: value, ..self }
    }

    /// The spans reflowed into at most `max_height` lines of `width` columns.
    /// A width of zero breaks after every character; a height of zero gives no lines.
    pub fn lines(&self, width: usize, max_height: usize) -> (r: Vec<Line>)
        ensures
            lines_view(r@) == reflow(self.spans_view(), width as nat, max_height as nat),
            r@.len() <= max_height,
    {
        let ghost sv = self.spans_view();
        let ghost w = width as nat;
        let ghost mh = max_height as nat;
        if max_height == 0 {
            let r: Vec<Line> = Vec::new();
            assert(lines_view(r@) =~= Seq::<LineView>::empty());
            return r;
        }
        let mut lines: Vec<Line> = Vec::new();
        assert(lines_view(lines@) =~= Seq::<LineView>::empty());
        let mut j: usize = 0;
        while j < self.spans.len()
            invariant
                sv == self.spans_view(),
                w == width as nat,
                mh == max_height as nat,
                max_height > 0,
                j <= sv.len(),
                lines@.len() <= max_height,
                spans_from(sv, 0, Seq::empty(), w, mh) == spans_from(sv, j as int, lines_view(lines@), w, mh),
            decreases sv.len() - j,
        {
            let ghost l0 = lines_view(lines@);
            let span = &self.spans[j];
            assert(sv[j as int] == span@);
            let last: Vec<char> = if lines.len() == 0 {
                Vec::new()
            } else {
                lines[lines.len() - 1].plain()
            };
            let content = concat(&last, &span.content);
            let wrapped = wrap_text(&content, width);
            let (next, cut) = lay_out_span(lines, span, wrapped, max_height);
            lines = next;
            if cut {
                let trimmed_lines = trim_all(lines);
                return set_ellipsis(trimmed_lines);
            }
            j = j + 1;
        }
        trim_all(lines)
    }
}

/// Columns between the left edge of an area and a line of `line_w` columns.
pub open spec fn align_offset(alignment: Option<Alignment>, area_width: int, line_w: int) -> int {
    match alignment {
        Some(Alignment::Center) => if area_width > line_w {
            (area_width - line_w) / 2
        } else {
            0
        },
        Some(Alignment::Right) => if area_width > line_w {
            area_width - line_w
        } else {
            0
        },
        _ => 0,
    }
}

/// A coordinate held at the largest one.
pub open spec fn saturate(v: int) -> u16 {
    if v > 65535 {
        65535
    } else {
        v as u16
    }
}

/// The row `row` of a text placed at `area`, for a line `width` columns wide.
pub open spec fn spec_line_area(area: Rect, alignment: Option<Alignment>, width: u16, row: int) -> Rect {
    Rect {
        x: saturate(area.x + align_offset(alignment, area.width as int, width as int)),
        y: saturate(area.y + row),
        width,
        height: 1,
    }
}

/// Where line `i` of a text placed at `area` goes: one row, as wide as the line.
pub open spec fn line_placement(
    l: LineView,
    area: Rect,
    alignment: Option<Alignment>,
    i: int,
) -> PlacementView {
    (spec_line_area(area, alignment, min_width(line_width(l)), i), WidgetView::Line(l))
}

/// The row `row` of a text placed at `area`, for a line `width` columns
/// wide: moved right as the alignment asks, as wide as the line.
pub fn line_area(area: Rect, alignment: Option<Alignment>, width: u16, row: u16) -> (r: Rect)
    ensures
        r == spec_line_area(area, alignment, width, row as int),
{
    let offset = match alignment {
        Some(Alignment::Center) => area.width.saturating_sub(width) / 2,
        Some(Alignment::Right) => area.width.saturating_sub(width),
        _ => 0,
    };
    Rect { x: area.x.saturating_add(offset), y: area.y.saturating_add(row), width, height: 1 }
}

pub open spec fn text_placements(
    ls: Seq<LineView>,
    area: Rect,
    alignment: Option<Alignment>,
) -> Seq<PlacementView> {
    Seq::new(ls.len(), |i: int| line_placement(ls[i], area, alignment, i))
}

/// No span has a visible width.
pub open spec fn all_invisible(spans: Seq<SpanView>) -> bool {
    forall|i: int| 0 <= i < spans.len() ==> display_width(#[trigger] spans[i].0) == 0
}

impl Text {
    /// The text is left out when stored at `area`.
    pub open spec fn skipped_at(&self, area: Rect) -> bool {
        area.spec_is_empty() || (self.spec_ignore_if_empty() && all_invisible(self.spans_view()))
    }

    /// Places one row per reflowed line into `store`, aligned within `area`.
    /// The reflow is kept and made again only when the size of `area` changes.
    /// Nothing is placed for an area without cells, nor for a text that is
    /// skipped when empty and whose spans have no visible width.
    pub fn store_in(&mut self, area: Rect, store: &mut Store)
        requires
            old(store).wf(),
        ensures
            final(self).spans_view() == old(self).spans_view(),
            final(self).spec_alignment() == old(self).spec_alignment(),
            final(self).spec_ignore_if_empty() == old(self).spec_ignore_if_empty(),
            final(store).wf(),
            final(store).scroll() == old(store).scroll(),
            old(self).skipped_at(area) ==> final(store).placements() == old(store).placements()
                && final(store).stored() == old(store).stored(),
            !old(self).skipped_at(area) ==> final(store).placements() == old(store).placements()
                + text_placements(
                reflow(old(self).spans_view(), area.width as nat, area.height as nat),
                area,
                old(self).spec_alignment(),
            ),
            !old(self).skipped_at(area) ==> final(self).cached_size() == Some(
                (area.width, area.height),
            ),
    {
        if area.is_empty() {
            return;
        }
        if self.ignore_if_empty {
            let mut all_empty = true;
            let mut k: usize = 0;
            while k < self.spans.len()
                invariant
                    k <= self.spans@.len(),
                    all_empty ==> forall|i: int|
                        0 <= i < k ==> display_width(#[trigger] self.spans_view()[i].0) == 0,
                    !all_empty ==> exists|i: int|
                        0 <= i < k && display_width(#[trigger] self.spans_view()[i].0) != 0,
                decreases self.spans@.len() - k,
            {
                assert(self.spans_view()[k as int] == self.spans@[k as int]@);
                if self.spans[k].width() != 0 {
                    all_empty = false;
                    assert(display_width(self.spans_view()[k as int].0) != 0);
                }
                k = k + 1;
            }
            if all_empty {
                return;
            }
        }
        let stale = match &self.cache {
            Some(c) => c.width != area.width || c.height != area.height,
            None => true,
        };
        if stale {
            let lines = self.lines(area.width as usize, area.height as usize);
            self.cache = Some(WrapCache { width: area.width, height: area.height, lines });
        }
        proof {
            use_type_invariant(&*self);
        }
        let ghost before = store.placements();
        let alignment = self.alignment;
        match &self.cache {
            Some(c) => {
                let ghost ls = lines_view(c.lines@);
                assert(ls == reflow(self.spans_view(), area.width as nat, area.height as nat));
                let ghost tp = text_placements(ls, area, alignment);
                let n = c.lines.len();
                let mut y: usize = 0;
                while y < n
                    invariant
                        n == ls.len(),
                        ls == lines_view(c.lines@),
                        tp == text_placements(ls, area, alignment),
                        y <= n,
                        n <= area.height,
                        store.wf(),
                        store.scroll() == old(store).scroll(),
                        store.placements() == before + tp.take(y as int),
                    decreases n - y,
                {
                    let line = c.lines[y].duplicate();
                    assert(y < 65536);
                    assert(line@ == ls[y as int]);
                    let width = line.width();
                    let rect = line_area(area, alignment, width, y as u16);
                    assert(rect == line_placement(ls[y as int], area, alignment, y as int).0);
                    store.push(rect, Widget::Line(line));
                    assert(tp.take(y + 1) =~= tp.take(y as int).push(tp[y as int]));
                    y = y + 1;
                }
                assert(tp.take(n as int) =~= tp);
            },
            None => {},
        }
    }
}

impl Storeable for Text {
    open spec fn placed(&self, area: Rect) -> Seq<PlacementView> {
        if self.skipped_at(area) {
            Seq::empty()
        } else {
            text_placements(
                reflow(self.spans_view(), area.width as nat, area.height as nat),
                area,
                self.spec_alignment(),
            )
        }
    }

    fn store(self, area: Rect, store: &mut Store) {
        let mut text = self;
        text.store_in(area, store);
        proof {
            if self.skipped_at(area) {
                assert(store.placements() =~= old(store).placements() + Seq::<PlacementView>::empty());
            }
        }
    }
}

/// A line's text is empty or ends in a character that is not white space.
pub open spec fn ends_visibly(l: LineView) -> bool {
    plain_text(l).len() == 0 || !is_white_space(plain_text(l).last())
}

proof fn lemma_plain_push(l: LineView, x: SpanView)
    ensures
        plain_text(l.push(x)) == plain_text(l) + x.0,
{
    assert(l.push(x).drop_last() =~= l);
}

proof fn lemma_plain_update_last(l: LineView, x: SpanView)
    requires
        l.len() > 0,
    ensures
        plain_text(l.update(l.len() - 1, x)) == plain_text(l.drop_last()) + x.0,
{
    assert(l.update(l.len() - 1, x).drop_last() =~= l.drop_last());
}

proof fn lemma_trailing_white_len_bound(s: Seq<char>)
    ensures
        trailing_white_len(s) <= s.len(),
    decreases s.len(),
{
    if s.len() > 0 {
        lemma_trailing_white_len_bound(s.drop_last());
    }
}

proof fn lemma_trimmed_ends_visibly(s: Seq<char>)
    ensures
        trimmed(s).len() == 0 || !is_white_space(trimmed(s).last()),
    decreases s.len(),
{
    if s.len() > 0 {
        if is_white_space(s.last()) {
            lemma_trimmed_ends_visibly(s.drop_last());
            lemma_trailing_white_len_bound(s.drop_last());
            assert(trailing_white_len(s) == 1 + trailing_white_len(s.drop_last()));
            assert(trimmed(s) =~= trimmed(s.drop_last()));
        } else {
            assert(trimmed(s) =~= s);
        }
    }
}

proof fn lemma_trim_line_ends_visibly(l: LineView)
    ensures
        ends_visibly(trim_line(l)),
    decreases l.len(),
{
    if l.len() > 0 {
        let t = trimmed(l.last().0);
        if t.len() == 0 {
            lemma_trim_line_ends_visibly(l.drop_last());
            lemma_plain_push(trim_line(l.drop_last()), (t, l.last().1));
            assert(plain_text(trim_line(l)) =~= plain_text(trim_line(l.drop_last())));
        } else {
            lemma_trimmed_ends_visibly(l.last().0);
            lemma_plain_update_last(l, (t, l.last().1));
        }
    }
}

proof fn lemma_mark_last_visible(l: LineView)
    requires
        plain_text(l).len() > 0,
    ensures
        plain_text(mark_last_visible(l)).len() > 0,
        plain_text(mark_last_visible(l)).last() == ELLIPSIS,
    decreases l.len(),
{
    let n = l.len() - 1;
    if l.last().0.len() > 0 {
        lemma_plain_update_last(l, (l.last().0.drop_last().push(ELLIPSIS), l.last().1));
    } else {
        assert(plain_text(l) =~= plain_text(l.drop_last()));
        lemma_mark_last_visible(l.drop_last());
        lemma_plain_push(mark_last_visible(l.drop_last()), l.last());
        assert(plain_text(mark_last_visible(l)) =~= plain_text(mark_last_visible(l.drop_last())));
    }
}

proof fn lemma_mark_cut(l: LineView)
    ensures
        plain_text(mark_cut(l)).len() > 0,
        plain_text(mark_cut(l)).last() == ELLIPSIS,
{
    if l.len() == 0 {
        let m = mark_cut(l);
        assert(m.drop_last() =~= Seq::<SpanView>::empty());
        assert(m.len() == 1);
        assert(m.last().0 == seq![ELLIPSIS]);
        assert(plain_text(m.drop_last()) == Seq::<char>::empty());
        assert(plain_text(m) =~= seq![ELLIPSIS]);
    } else if plain_text(l).len() == 0 {
        lemma_plain_update_last(l, (seq![ELLIPSIS], l.last().1));
    } else {
        lemma_mark_last_visible(l);
    }
}

/// The shape every reflow has: no line ends in white space, and when the
/// line limit cut the text off, the last line ends in an ellipsis.
pub proof fn lemma_reflow_shape(spans: Seq<SpanView>, width: nat, max_height: nat)
    ensures
        forall|i: int|
            0 <= i < reflow(spans, width, max_height).len() ==> ends_visibly(
                #[trigger] reflow(spans, width, max_height)[i],
            ),
        max_height > 0 && spans_from(spans, 0, Seq::empty(), width, max_height).1 ==> {
            let r = reflow(spans, width, max_height);
            r.len() > 0 && plain_text(r.last()).len() > 0 && plain_text(r.last()).last()
                == ELLIPSIS
        },
{
    let r = reflow(spans, width, max_height);
    if max_height > 0 {
        let (ls, cut) = spans_from(spans, 0, Seq::empty(), width, max_height);
        let t = trim_lines(ls);
        assert forall|i: int| 0 <= i < t.len() implies ends_visibly(#[trigger] t[i]) by {
            lemma_trim_line_ends_visibly(ls[i]);
        }
        if cut {
            if t.len() == 0 {
                lemma_mark_cut(Seq::empty());
            } else {
                lemma_mark_cut(t.last());
            }
            assert(!is_white_space(ELLIPSIS));
            assert forall|i: int| 0 <= i < r.len() implies ends_visibly(#[trigger] r[i]) by {
                if i < r.len() - 1 {
                    assert(r[i] == t[i]);
                }
            }
        }
    }
}

} // verus!
