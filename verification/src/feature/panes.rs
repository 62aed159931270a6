//! What the picker's panes show: the issue rows, the query line, the preview
//! text, the footer hints and the create chooser, as styled text for the
//! driver to draw.

use vstd::prelude::*;
use crate::common::spinner::{frame, frames};
use crate::common::styled::{Line, LineV, Span, SpanV, Text, line_v, lines_v, raw_spans, span_v, spans_v, text_v};
use crate::common::theme::{Color, Style, bar, bar_spec, border, border_spec, footer, footer_spec, key, key_spec, match_hl, match_hl_spec, muted, muted_spec, plain, prompt, prompt_spec, query, query_spec, row, row_spec, title, title_spec};
use crate::feature::tracker::Issue;
use crate::feature::ui::{App, UiView, cache_get};
use crate::text::{pad_right, append_chars, append_str, chars_of, decimal, decimal_chars, repeat_char, string_of, sub_chars};

verus! {

/// `s` cut to `w` characters and padded with spaces to `w`, then a space.
pub open spec fn col_spec(s: Seq<char>, w: nat) -> Seq<char> {
    let t = if s.len() <= w { s } else { s.take(w as int) };
    t + repeat_char(' ', (w - t.len()) as nat) + seq![' ']
}

/// Truncate to `w` characters (no ellipsis), pad to width `w`, add a space.
pub fn col(s: &str, w: usize) -> (r: String)
    ensures
        r@ == col_spec(s@, w as nat),
        r@.len() == w + 1,
{
    let cs = chars_of(s);
    let take = if cs.len() <= w { cs.len() } else { w };
    let mut t = sub_chars(cs.as_slice(), 0, take);
    let ghost base = t@;
    while t.len() < w
        invariant
            base.len() == take,
            take <= t@.len() <= w,
            t@ == base + repeat_char(' ', (t@.len() - take) as nat),
        decreases w - t.len(),
    {
        let ghost before = t@;
        t.push(' ');
        proof {
            assert(t@ =~= base + repeat_char(' ', (t@.len() - take) as nat));
        }
    }
    t.push(' ');
    proof {
        assert(t@ =~= col_spec(s@, w as nat));
    }
    string_of(t.as_slice())
}

/// The style of summary character `i`: accented when it matched.
pub open spec fn char_style(matched: Seq<usize>, i: int) -> Style {
    if matched.contains(i as usize) {
        match_hl_spec()
    } else {
        row_spec()
    }
}

/// Summary spans: one per character, matched ones accented; cut with `…` to
/// `max_w` columns when longer, and padded to exactly `max_w`.
pub open spec fn highlight_spec(s: Seq<char>, matched: Seq<usize>, max_w: nat) -> Seq<SpanV> {
    let truncated = s.len() > max_w;
    let take: nat = if truncated {
        if max_w >= 1 { (max_w - 1) as nat } else { 0 }
    } else {
        s.len()
    };
    let chars = Seq::new(take, |i: int| (seq![s[i]], char_style(matched, i)));
    let with_ell = if truncated { chars.push(("…"@, row_spec())) } else { chars };
    let shown: nat = if truncated { take + 1 } else { take };
    if shown < max_w {
        with_ell.push((repeat_char(' ', (max_w - shown) as nat), plain()))
    } else {
        with_ell
    }
}

/// The number of characters in a run of spans.
pub open spec fn spans_chars(spans: Seq<SpanV>) -> nat
    decreases spans.len(),
{
    if spans.len() == 0 {
        0
    } else {
        spans_chars(spans.drop_last()) + spans.last().0.len()
    }
}

proof fn lemma_one_char_spans(spans: Seq<SpanV>)
    requires
        forall|i: int| 0 <= i < spans.len() ==> (#[trigger] spans[i]).0.len() == 1,
    ensures
        spans_chars(spans) == spans.len(),
    decreases spans.len(),
{
    if spans.len() > 0 {
        let d = spans.drop_last();
        assert forall|i: int| 0 <= i < d.len() implies (#[trigger] d[i]).0.len() == 1 by {
            assert(d[i] == spans[i]);
        }
        lemma_one_char_spans(d);
    }
}

/// A row's summary takes exactly `max_w` characters (for a positive width),
/// cut with `…` or padded, so the column after it lines up.
pub proof fn lemma_highlight_fills(s: Seq<char>, matched: Seq<usize>, max_w: nat)
    requires
        max_w >= 1,
    ensures
        spans_chars(highlight_spec(s, matched, max_w)) == max_w,
{
    let truncated = s.len() > max_w;
    let take: nat = if truncated { (max_w - 1) as nat } else { s.len() };
    let chars = Seq::new(take, |i: int| (seq![s[i]], char_style(matched, i)));
    assert forall|i: int| 0 <= i < chars.len() implies (#[trigger] chars[i]).0.len() == 1 by {}
    lemma_one_char_spans(chars);
    let with_ell = if truncated { chars.push(("…"@, row_spec())) } else { chars };
    let shown: nat = if truncated { take + 1 } else { take };
    if truncated {
        reveal_strlit("…");
        assert(with_ell.drop_last() =~= chars);
    }
    assert(spans_chars(with_ell) == shown);
    if shown < max_w {
        let padded = with_ell.push((repeat_char(' ', (max_w - shown) as nat), plain()));
        assert(padded.drop_last() =~= with_ell);
    }
}

fn contains_usize(v: &[usize], x: usize) -> (r: bool)
    ensures
        r == v@.contains(x),
{
    let mut i: usize = 0;
    while i < v.len()
        invariant
            i <= v@.len(),
            forall|j: int| 0 <= j < i ==> v@[j] != x,
        decreases v.len() - i,
    {
        if v[i] == x {
            assert(v@[i as int] == x);
            return true;
        }
        i += 1;
    }
    false
}

fn spaces(n: usize) -> (r: Vec<char>)
    ensures
        r@ == repeat_char(' ', n as nat),
{
    let mut r: Vec<char> = Vec::new();
    while r.len() < n
        invariant
            r@.len() <= n,
            r@ == repeat_char(' ', r@.len()),
        decreases n - r.len(),
    {
        r.push(' ');
        proof {
            assert(r@ =~= repeat_char(' ', r@.len()));
        }
    }
    r
}

/// Summary spans, accenting the matched characters (`matched` is ascending),
/// truncated to `max_w` with `…` and padded to exactly `max_w` columns.
pub fn highlight(summary: &str, matched: &[usize], max_w: usize) -> (r: Vec<Span>)
    ensures
        spans_v(r@) == highlight_spec(summary@, matched@, max_w as nat),
{
    let chars = chars_of(summary);
    let truncated = chars.len() > max_w;
    let take = if truncated {
        if max_w >= 1 { max_w - 1 } else { 0 }
    } else {
        chars.len()
    };
    let ghost expect = Seq::new(take as nat, |i: int| (seq![summary@[i]], char_style(matched@, i)));
    let mut spans: Vec<Span> = Vec::new();
    let mut i: usize = 0;
    while i < take
        invariant
            take <= chars@.len(),
            chars@ == summary@,
            i <= take,
            expect == Seq::new(take as nat, |i: int| (seq![summary@[i]], char_style(matched@, i))),
            spans_v(spans@) == expect.take(i as int),
        decreases take - i,
    {
        let style = if contains_usize(matched, i) { match_hl() } else { row() };
        let one = vec![chars[i]];
        let ghost before = spans@;
        spans.push(Span::styled_chars(one.as_slice(), style));
        proof {
            assert(one@ =~= seq![summary@[i as int]]);
            assert(spans_v(spans@) =~= spans_v(before).push(span_v(spans@[i as int])));
            assert(expect.take(i + 1) =~= expect.take(i as int).push(expect[i as int]));
        }
        i += 1;
    }
    proof {
        assert(expect.take(take as int) =~= expect);
    }
    let shown = if truncated {
        let ghost before = spans@;
        spans.push(Span::styled("…", row()));
        proof {
            assert(spans_v(spans@) =~= spans_v(before).push(span_v(spans@[before.len() as int])));
        }
        take + 1
    } else {
        take
    };
    if shown < max_w {
        let pad = spaces(max_w - shown);
        let ghost before = spans@;
        spans.push(Span::styled_chars(pad.as_slice(), Style::new()));
        proof {
            assert(spans_v(spans@) =~= spans_v(before).push(span_v(spans@[before.len() as int])));
        }
    }
    spans
}

/// Columns before the summary: marker, branch mark, type and key.
pub open spec fn prefix_w() -> nat {
    2 + 2 + 10 + 12
}

/// The status column: a space and 14 characters.
pub open spec fn status_tail() -> nat {
    1 + 14
}

/// Whether a row of `width` columns has room for the status column.
pub open spec fn shows_status(width: nat) -> bool {
    width >= prefix_w() + 6 + status_tail()
}

/// The summary's width in a row of `width` columns: what is left, at least 6.
pub open spec fn summary_w(width: nat) -> nat {
    let rest = sat_sub_nat(width, prefix_w() + if shows_status(width) { status_tail() } else { 0 });
    if rest >= 6 { rest } else { 6 }
}

/// `a` saturating-subtract `b`.
pub open spec fn sat_sub_nat(a: nat, b: nat) -> nat {
    if a >= b { (a - b) as nat } else { 0 }
}

/// One issue row: selection marker, worktree/branch mark, type, key, the
/// highlighted summary and (when there is room) the status.
pub open spec fn row_spec_spans(
    selected: bool,
    iss: Issue,
    matched: Seq<usize>,
    has_branch: bool,
    has_worktree: bool,
    width: nat,
) -> Seq<SpanV> {
    let marker = if selected { ("▌ "@, bar_spec()) } else { ("  "@, plain()) };
    let mark = if has_worktree {
        ("⧉ "@, key_spec())
    } else if has_branch {
        ("⎇ "@, muted_spec())
    } else {
        ("  "@, plain())
    };
    let head = seq![marker, mark, (col_spec(iss.kind@, 9), muted_spec()), (col_spec(iss.key@, 11), key_spec())];
    let body = head + highlight_spec(iss.summary@, matched, summary_w(width));
    if shows_status(width) {
        let st = if iss.status@.len() <= 14 { iss.status@ } else { iss.status@.take(14) };
        body.push((" "@ + st, footer_spec()))
    } else {
        body
    }
}

fn push_span(v: &mut Vec<Span>, s: Span)
    ensures
        spans_v(final(v)@) == spans_v(old(v)@).push(span_v(s)),
{
    let ghost before = v@;
    v.push(s);
    proof {
        assert(spans_v(v@) =~= spans_v(before).push(span_v(s)));
    }
}

fn append_spans(v: &mut Vec<Span>, mut w: Vec<Span>)
    ensures
        spans_v(final(v)@) == spans_v(old(v)@) + spans_v(w@),
{
    let ghost before = v@;
    let ghost ws = w@;
    v.append(&mut w);
    proof {
        assert(v@ == before + ws);
        assert(spans_v(v@) =~= spans_v(before) + spans_v(ws));
    }
}

/// One issue row.
pub fn row_item(selected: bool, iss: &Issue, matched: &[usize], has_branch: bool, has_worktree: bool, width: usize) -> (r: Line)
    ensures
        line_v(r) == (row_spec_spans(selected, *iss, matched@, has_branch, has_worktree, width as nat), plain()),
{
    let mut spans: Vec<Span> = Vec::new();
    push_span(&mut spans, if selected { Span::styled("▌ ", bar()) } else { Span::raw("  ") });
    push_span(
        &mut spans,
        if has_worktree {
            Span::styled("⧉ ", key())
        } else if has_branch {
            Span::styled("⎇ ", muted())
        } else {
            Span::raw("  ")
        },
    );
    let kind = col(iss.kind.as_str(), 9);
    push_span(&mut spans, Span::styled(kind.as_str(), muted()));
    let k = col(iss.key.as_str(), 11);
    push_span(&mut spans, Span::styled(k.as_str(), key()));
    let show_status = width >= 26 + 6 + 15;
    let used: usize = if show_status { 26 + 15 } else { 26 };
    let rest = if width >= used { width - used } else { 0 };
    let sum_w = if rest >= 6 { rest } else { 6 };
    append_spans(&mut spans, highlight(iss.summary.as_str(), matched, sum_w));
    if show_status {
        let st = chars_of(iss.status.as_str());
        let n = if st.len() <= 14 { st.len() } else { 14 };
        let mut tail = chars_of(" ");
        let cut = sub_chars(st.as_slice(), 0, n);
        append_chars(&mut tail, cut.as_slice());
        push_span(&mut spans, Span::styled_chars(tail.as_slice(), footer()));
        proof {
            assert(cut@ =~= (if iss.status@.len() <= 14 { iss.status@ } else { iss.status@.take(14) }));
        }
    }
    proof {
        assert(spans_v(spans@) =~= row_spec_spans(selected, *iss, matched@, has_branch, has_worktree, width as nat));
    }
    Line::from_spans(spans)
}

/// A help line: the key name indented and padded to 16 columns, then what it does.
pub open spec fn kv_line(k: Seq<char>, v: Seq<char>) -> LineV {
    (seq![("  "@ + pad_right(k, 16), key_spec()), (v, muted_spec())], plain())
}

/// A line of `s` in the line style `st`.
pub open spec fn styled_line(s: Seq<char>, st: Style) -> LineV {
    (raw_spans(s), st)
}

/// An empty line.
pub open spec fn blank_line() -> LineV {
    (seq![], plain())
}

/// The help shown in the preview pane.
pub open spec fn help_lines() -> Seq<LineV> {
    seq![
        styled_line("Pick an issue and branch from it, or create one with ctrl-n."@, muted_spec()),
        blank_line(),
        styled_line("navigate"@, title_spec()),
        kv_line("↑ / ctrl-k"@, "up"@),
        kv_line("↓ / ctrl-j"@, "down"@),
        kv_line("enter"@, "open worktree if one exists, else branch"@),
        kv_line("ctrl-enter"@, "worktree from issue (create or jump)"@),
        kv_line("ctrl-n"@, "create issue (then pick worktree/branch)"@),
        kv_line("ctrl-r"@, "refresh list"@),
        kv_line("esc / ctrl-c"@, "quit"@),
        blank_line(),
        styled_line("preview"@, title_spec()),
        kv_line("ctrl-d / ctrl-u"@, "scroll half page"@),
        kv_line("ctrl-f / ctrl-b"@, "scroll page"@),
        blank_line(),
        styled_line("type filter"@, title_spec()),
        kv_line("/b /bug"@, "Bug"@),
        kv_line("/t /task"@, "Task"@),
        kv_line("/s /story"@, "Story"@),
        kv_line("/st /sub"@, "Sub-task"@),
        blank_line(),
        styled_line("markers"@, title_spec()),
        kv_line("⧉"@, "has a worktree (enter jumps in)"@),
        kv_line("⎇"@, "has a local branch"@),
        blank_line(),
        kv_line("?"@, "toggle this help"@)
    ]
}

fn kv(k: &str, v: &str) -> (r: Line)
    ensures
        line_v(r) == kv_line(k@, v@),
{
    let mut name = chars_of("  ");
    append_str(&mut name, k);
    let kc = chars_of(k);
    if kc.len() < 16 {
        let pad = spaces(16 - kc.len());
        append_chars(&mut name, pad.as_slice());
    }
    assert(name@ =~= "  "@ + pad_right(k@, 16));
    let mut spans: Vec<Span> = Vec::new();
    push_span(&mut spans, Span::styled_chars(name.as_slice(), key()));
    push_span(&mut spans, Span::styled(v, muted()));
    proof {
        assert(spans_v(spans@) =~= kv_line(k@, v@).0);
    }
    Line::from_spans(spans)
}

fn blank() -> (r: Line)
    ensures
        line_v(r) == blank_line(),
{
    let spans: Vec<Span> = Vec::new();
    proof {
        assert(spans_v(spans@) =~= Seq::<SpanV>::empty());
    }
    Line::from_spans(spans)
}

fn push_line(v: &mut Vec<Line>, l: Line)
    ensures
        lines_v(final(v)@) == lines_v(old(v)@).push(line_v(l)),
{
    let ghost before = v@;
    v.push(l);
    proof {
        assert(lines_v(v@) =~= lines_v(before).push(line_v(l)));
    }
}

/// The help text: keys for moving, creating, previewing, filtering, and what
/// the row markers mean.
pub fn help_text() -> (t: Text)
    ensures
        text_v(t) == help_lines(),
{
    let mut ls: Vec<Line> = Vec::new();
    push_line(&mut ls, Line::styled("Pick an issue and branch from it, or create one with ctrl-n.", muted()));
    push_line(&mut ls, blank());
    push_line(&mut ls, Line::styled("navigate", title()));
    push_line(&mut ls, kv("↑ / ctrl-k", "up"));
    push_line(&mut ls, kv("↓ / ctrl-j", "down"));
    push_line(&mut ls, kv("enter", "open worktree if one exists, else branch"));
    push_line(&mut ls, kv("ctrl-enter", "worktree from issue (create or jump)"));
    push_line(&mut ls, kv("ctrl-n", "create issue (then pick worktree/branch)"));
    push_line(&mut ls, kv("ctrl-r", "refresh list"));
    push_line(&mut ls, kv("esc / ctrl-c", "quit"));
    push_line(&mut ls, blank());
    push_line(&mut ls, Line::styled("preview", title()));
    push_line(&mut ls, kv("ctrl-d / ctrl-u", "scroll half page"));
    push_line(&mut ls, kv("ctrl-f / ctrl-b", "scroll page"));
    push_line(&mut ls, blank());
    push_line(&mut ls, Line::styled("type filter", title()));
    push_line(&mut ls, kv("/b /bug", "Bug"));
    push_line(&mut ls, kv("/t /task", "Task"));
    push_line(&mut ls, kv("/s /story", "Story"));
    push_line(&mut ls, kv("/st /sub", "Sub-task"));
    push_line(&mut ls, blank());
    push_line(&mut ls, Line::styled("markers", title()));
    push_line(&mut ls, kv("⧉", "has a worktree (enter jumps in)"));
    push_line(&mut ls, kv("⎇", "has a local branch"));
    push_line(&mut ls, blank());
    push_line(&mut ls, kv("?", "toggle this help"));
    proof {
        assert(lines_v(ls@) =~= help_lines());
    }
    Text::from_lines(ls)
}

/// The footer hints of the list.
pub open spec fn list_hints() -> Seq<SpanV> {
    seq![
        (" ↑↓"@, key_spec()),
        (" move  "@, footer_spec()),
        ("⏎"@, key_spec()),
        (" open/branch  "@, footer_spec()),
        ("^⏎"@, key_spec()),
        (" worktree  "@, footer_spec()),
        ("^n"@, key_spec()),
        (" new  "@, footer_spec()),
        ("^r"@, key_spec()),
        (" refresh  "@, footer_spec()),
        ("/b /t /s"@, key_spec()),
        (" type  "@, footer_spec()),
        ("?"@, key_spec()),
        (" help  "@, footer_spec()),
        ("esc"@, key_spec()),
        (" quit"@, footer_spec())
    ]
}

/// The hints under the create chooser.
pub open spec fn chooser_hints() -> Seq<SpanV> {
    seq![
        ("← →"@, key_spec()),
        (" choose   "@, footer_spec()),
        ("⏎"@, key_spec()),
        (" confirm   "@, footer_spec()),
        ("esc"@, key_spec()),
        (" cancel"@, footer_spec())
    ]
}

/// The chooser's hint line (centered by the driver).
pub fn chooser_hint() -> (r: Line)
    ensures
        line_v(r) == (chooser_hints(), plain()),
{
    let mut spans: Vec<Span> = Vec::new();
    push_span(&mut spans, Span::styled("← →", key()));
    push_span(&mut spans, Span::styled(" choose   ", footer()));
    push_span(&mut spans, Span::styled("⏎", key()));
    push_span(&mut spans, Span::styled(" confirm   ", footer()));
    push_span(&mut spans, Span::styled("esc", key()));
    push_span(&mut spans, Span::styled(" cancel", footer()));
    proof {
        assert(spans_v(spans@) =~= chooser_hints());
    }
    Line::from_spans(spans)
}

/// How a chooser button looks: its border style, its fill colour and its
/// label style.
pub struct ButtonLook {
    pub border: Style,
    pub fill: Option<Color>,
    pub label: Style,
}

/// The selected button wears the accent border and the selection fill; the
/// other stays muted.
pub fn button_look(selected: bool) -> (r: ButtonLook)
    ensures
        selected ==> r.border == title_spec() && r.fill == Some(Color::Rgb(0x26, 0x26, 0x26)) && r.label == title_spec(),
        !selected ==> r.border == border_spec() && r.fill is None && r.label == muted_spec(),
{
    if selected {
        ButtonLook { border: title(), fill: Some(crate::common::theme::sel_bg()), label: title() }
    } else {
        ButtonLook { border: border(), fill: None, label: muted() }
    }
}

/// The chooser's button row in a modal `width` cells wide: the left padding
/// that centres the group, each button's width (16) and the gap between
/// the two (4).
pub fn button_row(width: u16) -> (r: (u16, u16, u16))
    ensures
        r.1 == 16,
        r.2 == 4,
        r.0 == (if width >= 36 { (width - 36) / 2 } else { 0 }),
{
    let bw: u16 = 16;
    let gap: u16 = 4;
    let group: u16 = bw * 2 + gap;
    let pad = if width >= group { (width - group) / 2 } else { 0 };
    (pad, bw, gap)
}

/// A rectangle of cells.
#[derive(Debug, Clone, Copy, PartialEq, Eq, Structural)]
pub struct Rect {
    pub x: u16,
    pub y: u16,
    pub width: u16,
    pub height: u16,
}

/// A `width` by `height` rectangle centered in `area`, cut to fit.
pub fn centered_rect(width: u16, height: u16, area: Rect) -> (r: Rect)
    requires
        area.x + area.width <= u16::MAX,
        area.y + area.height <= u16::MAX,
    ensures
        r.width == (if width < area.width { width } else { area.width }),
        r.height == (if height < area.height { height } else { area.height }),
        r.x == area.x + (area.width - r.width) / 2,
        r.y == area.y + (area.height - r.height) / 2,
{
    let w = if width < area.width { width } else { area.width };
    let h = if height < area.height { height } else { area.height };
    Rect { x: area.x + (area.width - w) / 2, y: area.y + (area.height - h) / 2, width: w, height: h }
}

/// The display width of a string in terminal columns.
pub uninterp spec fn display_width(s: Seq<char>) -> nat;

/// `ratatui::text::Span::width`: the display width of the string (Unicode
/// width tables).
#[verifier::external_body]
fn text_width(s: &str) -> (r: usize)
    ensures
        r == display_width(s@),
{
    ratatui::text::Span::raw(s).width()
}

/// The display width of a line: the sum of its spans' widths.
pub open spec fn line_width(spans: Seq<SpanV>) -> nat
    decreases spans.len(),
{
    if spans.len() == 0 {
        0
    } else {
        line_width(spans.drop_last()) + display_width(spans.last().0)
    }
}

/// `n`, or the largest `usize` when it is larger.
pub open spec fn cap(n: nat) -> nat {
    if n > usize::MAX { usize::MAX as nat } else { n }
}

/// The rows a line takes when wrapped to `w` columns (an empty line takes one).
pub open spec fn line_rows(spans: Seq<SpanV>, w: nat) -> nat {
    let lw = cap(line_width(spans));
    if lw == 0 {
        1
    } else {
        lw / w + if lw % w == 0 { 0nat } else { 1nat }
    }
}

/// The rows of the first `n` lines wrapped to `w` columns.
pub open spec fn text_rows(ls: Seq<LineV>, w: nat, n: int) -> nat
    decreases n,
{
    if n <= 0 {
        0
    } else {
        cap(text_rows(ls, w, n - 1) + line_rows(ls[n - 1].0, w))
    }
}

/// An estimate of the rows `text` takes wrapped to `width` columns (at
/// least one), counting display columns rather than word breaks; it drives
/// the preview's scroll limit and thumb. Sums past the largest `usize` stay
/// at it.
pub open spec fn wrapped_rows(ls: Seq<LineV>, width: nat) -> nat {
    if width == 0 {
        if ls.len() >= 1 { ls.len() } else { 1 }
    } else {
        let t = text_rows(ls, width, ls.len() as int);
        if t >= 1 { t } else { 1 }
    }
}

fn line_width_of(l: &Line) -> (r: usize)
    ensures
        r == cap(line_width(spans_v(l.spans@))),
{
    let mut acc: usize = 0;
    let mut i: usize = 0;
    while i < l.spans.len()
        invariant
            i <= l.spans@.len(),
            acc == cap(line_width(spans_v(l.spans@).take(i as int))),
        decreases l.spans.len() - i,
    {
        let w = text_width(l.spans[i].content.as_str());
        proof {
            let t = spans_v(l.spans@).take(i + 1);
            assert(t.drop_last() =~= spans_v(l.spans@).take(i as int));
            assert(t.last() == span_v(l.spans@[i as int]));
        }
        acc = acc.saturating_add(w);
        i += 1;
    }
    proof {
        assert(spans_v(l.spans@).take(i as int) =~= spans_v(l.spans@));
    }
    acc
}

/// The rows `text` takes wrapped to `width` columns, as `wrapped_rows` says.
pub fn wrapped_height(text: &Text, width: u16) -> (r: usize)
    ensures
        r == wrapped_rows(text_v(*text), width as nat),
{
    let w = width as usize;
    if w == 0 {
        return if text.lines.len() >= 1 { text.lines.len() } else { 1 };
    }
    let mut total: usize = 0;
    let mut i: usize = 0;
    while i < text.lines.len()
        invariant
            w > 0,
            w == width,
            i <= text.lines@.len(),
            total == text_rows(text_v(*text), w as nat, i as int),
        decreases text.lines.len() - i,
    {
        let lw = line_width_of(&text.lines[i]);
        proof {
            assert(lw % w != 0 ==> w >= 2) by (nonlinear_arith)
                requires
                    w > 0,
            ;
            assert(w >= 2 ==> lw / w < usize::MAX) by (nonlinear_arith)
                requires
                    w > 0,
                    lw <= usize::MAX,
            ;
        }
        let rows = if lw == 0 {
            1
        } else if lw % w == 0 {
            lw / w
        } else {
            lw / w + 1
        };
        proof {
            assert(text_v(*text)[i as int] == line_v(text.lines@[i as int]));
            assert(rows == line_rows(text_v(*text)[i as int].0, w as nat));
        }
        total = total.saturating_add(rows);
        i += 1;
    }
    if total >= 1 { total } else { 1 }
}
/// The first cached preview for `k`.
pub fn cache_lookup<'a>(cache: &'a Vec<(String, Text)>, k: &str) -> (r: Option<&'a Text>)
    ensures
        match r {
            Some(t) => cache_get(cache@, k@) == Some(*t),
            None => cache_get(cache@, k@) is None,
        },
{
    let mut j: usize = 0;
    proof {
        assert(cache@.skip(0) =~= cache@);
    }
    while j < cache.len()
        invariant
            j <= cache@.len(),
            cache_get(cache@, k@) == cache_get(cache@.skip(j as int), k@),
        decreases cache.len() - j,
    {
        if crate::text::str_eq(cache[j].0.as_str(), k) {
            proof {
                assert(cache@.skip(j as int)[0] == cache@[j as int]);
            }
            return Some(&cache[j].1);
        }
        proof {
            assert(cache@.skip(j as int).drop_first() =~= cache@.skip(j + 1));
        }
        j += 1;
    }
    proof {
        assert(cache@.skip(j as int) =~= Seq::<(String, Text)>::empty());
    }
    None
}

/// The list's status in its title: the spinner while a refresh runs, else
/// the count of rows over the count of issues.
pub open spec fn left_status_spans(app: App) -> Seq<SpanV> {
    if app.refresh.running {
        seq![(" "@ + frames()[(app.tick % 10) as int] + " updating… "@, muted_spec())]
    } else {
        seq![(" "@ + decimal(app.rows@.len()) + "/"@ + decimal(app.issues@.len()) + " "@, footer_spec())]
    }
}

/// What the preview pane shows: the help, the current issue's cached preview,
/// a loading note, or a note that nothing matches.
pub open spec fn preview_lines_of(app: App) -> Seq<LineV> {
    if app.help {
        help_lines()
    } else {
        match app.cur_key() {
            Some(k) => match cache_get(app.preview_cache@, k) {
                Some(t) => text_v(t),
                None => seq![styled_line("loading…"@, muted_spec())],
            },
            None => seq![styled_line("no matching issues"@, muted_spec())],
        }
    }
}

/// The meta line under the preview: type, status and (when set) assignee of
/// the current issue; none in help mode or when nothing matches.
pub open spec fn meta_spans(app: App) -> Option<Seq<SpanV>> {
    if app.help {
        None
    } else {
        match app.cur_idx() {
            Some(i) => {
                let iss = app.issues@[i];
                let sep = "  •  "@;
                let base = iss.kind@ + sep + iss.status@;
                Some(seq![(if iss.assignee@.len() > 0 { base + sep + iss.assignee@ } else { base }, muted_spec())])
            },
            None => None,
        }
    }
}

/// The footer: the spinner while creating, nothing under the chooser, the
/// status message, or the key hints.
pub open spec fn footer_spans(app: App) -> Seq<SpanV> {
    if app.creating {
        seq![(frames()[(app.tick % 10) as int] + " "@, prompt_spec()), ("creating issue…"@, muted_spec())]
    } else if app.choosing_mode {
        seq![]
    } else if app.status@.len() > 0 {
        seq![(" "@ + app.status@, muted_spec())]
    } else {
        list_hints()
    }
}

/// The chooser's heading: the request's type and its summary cut to the
/// modal's inner width less 6.
pub open spec fn modal_head_spans(app: App, inner_width: nat) -> Option<Seq<SpanV>> {
    match app.pending_req {
        Some(req) => {
            let cap = sat_sub_nat(inner_width, 6);
            let summary = if req.summary@.len() <= cap { req.summary@ } else { req.summary@.take(cap as int) };
            Some(seq![(req.kind@, muted_spec()), ("  ·  "@, footer_spec()), (summary, query_spec())])
        },
        None => None,
    }
}

impl App {
    /// The query line: the prompt and the live query.
    pub fn query_line(&self) -> (r: Line)
        ensures
            line_v(r) == (seq![("❯ "@, prompt_spec()), (self.query@, query_spec())], plain()),
    {
        let mut spans: Vec<Span> = Vec::new();
        push_span(&mut spans, Span::styled("❯ ", prompt()));
        push_span(&mut spans, Span::styled(self.query.as_str(), query()));
        proof {
            assert(spans_v(spans@) =~= seq![("❯ "@, prompt_spec()), (self.query@, query_spec())]);
        }
        Line::from_spans(spans)
    }

    /// The list's status (drawn right-aligned in its title).
    pub fn left_status(&self) -> (r: Line)
        ensures
            line_v(r) == (left_status_spans(*self), plain()),
    {
        let mut spans: Vec<Span> = Vec::new();
        if self.refresh.in_flight() {
            let mut t = chars_of(" ");
            append_str(&mut t, frame(self.tick));
            append_str(&mut t, " updating… ");
            push_span(&mut spans, Span::styled_chars(t.as_slice(), muted()));
        } else {
            let mut t = chars_of(" ");
            let a = decimal_chars(self.rows.len() as u64);
            append_chars(&mut t, a.as_slice());
            append_str(&mut t, "/");
            let b = decimal_chars(self.issues.len() as u64);
            append_chars(&mut t, b.as_slice());
            append_str(&mut t, " ");
            push_span(&mut spans, Span::styled_chars(t.as_slice(), footer()));
        }
        proof {
            assert(spans_v(spans@) =~= left_status_spans(*self));
        }
        Line::from_spans(spans)
    }

    /// The rows of the list, `width` columns wide, the selected one marked.
    pub fn row_lines(&self, width: usize) -> (r: Vec<Line>)
        requires
            self.wf(),
        ensures
            r@.len() == self.rows@.len(),
            forall|k: int| 0 <= k < r@.len() ==> #[trigger] line_v(r@[k]) == (row_spec_spans(
                k == self.selected,
                self.issues@[self.rows@[k].issue_idx as int],
                self.rows@[k].sum_matched@,
                self.marks@[self.rows@[k].issue_idx as int].branch,
                self.marks@[self.rows@[k].issue_idx as int].worktree,
                width as nat,
            ), plain()),
    {
        let mut out: Vec<Line> = Vec::new();
        let mut k: usize = 0;
        while k < self.rows.len()
            invariant
                self.wf(),
                k <= self.rows@.len(),
                out@.len() == k,
                forall|j: int| 0 <= j < k ==> #[trigger] line_v(out@[j]) == (row_spec_spans(
                    j == self.selected,
                    self.issues@[self.rows@[j].issue_idx as int],
                    self.rows@[j].sum_matched@,
                    self.marks@[self.rows@[j].issue_idx as int].branch,
                    self.marks@[self.rows@[j].issue_idx as int].worktree,
                    width as nat,
                ), plain()),
            decreases self.rows.len() - k,
        {
            let idx = self.rows[k].issue_idx;
            let m = self.marks[idx];
            let line = row_item(k == self.selected, &self.issues[idx], self.rows[k].sum_matched.as_slice(), m.branch, m.worktree, width);
            out.push(line);
            k += 1;
        }
        out
    }

    /// What the preview pane shows.
    pub fn preview_text(&self) -> (t: Text)
        requires
            self.wf(),
        ensures
            text_v(t) == preview_lines_of(*self),
    {
        if self.help {
            return help_text();
        }
        match self.current() {
            Some(i) => match cache_lookup(&self.preview_cache, self.issues[i].key.as_str()) {
                Some(t) => t.duplicate(),
                None => {
                    let mut ls: Vec<Line> = Vec::new();
                    push_line(&mut ls, Line::styled("loading…", muted()));
                    proof {
                        assert(lines_v(ls@) =~= seq![styled_line("loading…"@, muted_spec())]);
                    }
                    Text::from_lines(ls)
                },
            },
            None => {
                let mut ls: Vec<Line> = Vec::new();
                push_line(&mut ls, Line::styled("no matching issues", muted()));
                proof {
                    assert(lines_v(ls@) =~= seq![styled_line("no matching issues"@, muted_spec())]);
                }
                Text::from_lines(ls)
            },
        }
    }

    /// The meta line under the preview.
    pub fn meta_line(&self) -> (r: Option<Line>)
        requires
            self.wf(),
        ensures
            match r {
                Some(l) => meta_spans(*self) == Some(line_v(l).0) && line_v(l).1 == plain(),
                None => meta_spans(*self) is None,
            },
    {
        if self.help {
            return None;
        }
        match self.current() {
            Some(i) => {
                let iss = &self.issues[i];
                let mut t = chars_of(iss.kind.as_str());
                append_str(&mut t, "  •  ");
                append_str(&mut t, iss.status.as_str());
                if !iss.assignee.as_str().is_empty() {
                    append_str(&mut t, "  •  ");
                    append_str(&mut t, iss.assignee.as_str());
                }
                let mut spans: Vec<Span> = Vec::new();
                push_span(&mut spans, Span::styled_chars(t.as_slice(), muted()));
                proof {
                    assert(spans_v(spans@) =~= meta_spans(*self)->0);
                }
                Some(Line::from_spans(spans))
            },
            None => None,
        }
    }

    /// The footer line.
    pub fn footer_line(&self) -> (r: Line)
        ensures
            line_v(r) == (footer_spans(*self), plain()),
    {
        let mut spans: Vec<Span> = Vec::new();
        if self.creating {
            let mut t = chars_of(frame(self.tick));
            append_str(&mut t, " ");
            push_span(&mut spans, Span::styled_chars(t.as_slice(), prompt()));
            push_span(&mut spans, Span::styled("creating issue…", muted()));
        } else if self.choosing_mode {
        } else if !self.status.as_str().is_empty() {
            let mut t = chars_of(" ");
            append_str(&mut t, self.status.as_str());
            push_span(&mut spans, Span::styled_chars(t.as_slice(), muted()));
        } else {
            push_span(&mut spans, Span::styled(" ↑↓", key()));
            push_span(&mut spans, Span::styled(" move  ", footer()));
            push_span(&mut spans, Span::styled("⏎", key()));
            push_span(&mut spans, Span::styled(" open/branch  ", footer()));
            push_span(&mut spans, Span::styled("^⏎", key()));
            push_span(&mut spans, Span::styled(" worktree  ", footer()));
            push_span(&mut spans, Span::styled("^n", key()));
            push_span(&mut spans, Span::styled(" new  ", footer()));
            push_span(&mut spans, Span::styled("^r", key()));
            push_span(&mut spans, Span::styled(" refresh  ", footer()));
            push_span(&mut spans, Span::styled("/b /t /s", key()));
            push_span(&mut spans, Span::styled(" type  ", footer()));
            push_span(&mut spans, Span::styled("?", key()));
            push_span(&mut spans, Span::styled(" help  ", footer()));
            push_span(&mut spans, Span::styled("esc", key()));
            push_span(&mut spans, Span::styled(" quit", footer()));
        }
        proof {
            assert(spans_v(spans@) =~= footer_spans(*self));
        }
        Line::from_spans(spans)
    }

    /// The chooser's heading, when a request is parked.
    pub fn modal_head(&self, inner_width: u16) -> (r: Option<Line>)
        ensures
            match r {
                Some(l) => modal_head_spans(*self, inner_width as nat) == Some(line_v(l).0) && line_v(l).1 == plain(),
                None => modal_head_spans(*self, inner_width as nat) is None,
            },
    {
        match &self.pending_req {
            Some(req) => {
                let cap: usize = if inner_width >= 6 { (inner_width - 6) as usize } else { 0 };
                let sc = chars_of(req.summary.as_str());
                let n = if sc.len() <= cap { sc.len() } else { cap };
                let cut = sub_chars(sc.as_slice(), 0, n);
                let mut spans: Vec<Span> = Vec::new();
                push_span(&mut spans, Span::styled(req.kind.as_str(), muted()));
                push_span(&mut spans, Span::styled("  ·  ", footer()));
                push_span(&mut spans, Span::styled_chars(cut.as_slice(), query()));
                proof {
                    assert(cut@ =~= (if req.summary@.len() <= cap { req.summary@ } else { req.summary@.take(cap as int) }));
                    assert(spans_v(spans@) =~= modal_head_spans(*self, inner_width as nat)->0);
                }
                Some(Line::from_spans(spans))
            },
            None => None,
        }
    }

    /// Keep the preview scroll within the text: at most `total` rows less the
    /// pane's `height` (as a `u16`, truncating).
    pub fn clamp_scroll(&mut self, total: usize, height: u16)
        ensures
            final(self)@ == (UiView {
                preview_scroll: if (old(self).preview_scroll as nat) < crate::feature::ui::sat_sub(total as nat, height as nat) % 0x10000 {
                    old(self).preview_scroll as nat
                } else {
                    crate::feature::ui::sat_sub(total as nat, height as nat) % 0x10000
                },
                ..old(self)@
            }),
            final(self).issues == old(self).issues,
            final(self).rows == old(self).rows,
            final(self).marks == old(self).marks,
            final(self).aliases == old(self).aliases,
            final(self).preview_cache == old(self).preview_cache,
            final(self).preview_loading == old(self).preview_loading,
            final(self).tick == old(self).tick,
    {
        let rest = if total >= height as usize { total - height as usize } else { 0 };
        let max_scroll = (rest % 0x10000) as u16;
        if self.preview_scroll >= max_scroll {
            self.preview_scroll = max_scroll;
        }
    }
}
} // verus!
