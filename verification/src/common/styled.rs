//! Styled text: spans of characters in one style, lines of spans, and
//! multi-line text, as drawn by the terminal front ends.

use vstd::prelude::*;
use crate::common::theme::{Style, plain};
use crate::text::{chars_of, lines, lines_of, owned, string_of};

verus! {

/// A run of text in one style.
#[derive(Debug, Clone)]
pub struct Span {
    pub content: String,
    pub style: Style,
}

/// A line of spans, with a style applied under all of them.
#[derive(Debug, Clone)]
pub struct Line {
    pub spans: Vec<Span>,
    pub style: Style,
}

/// Lines of styled text.
#[derive(Debug, Clone)]
pub struct Text {
    pub lines: Vec<Line>,
}

/// A span as a value: its characters and style.
pub type SpanV = (Seq<char>, Style);

/// A line as a value: its spans and style.
pub type LineV = (Seq<SpanV>, Style);

/// A span's characters and style.
pub open spec fn span_v(s: Span) -> SpanV {
    (s.content@, s.style)
}

/// The values of a list of spans.
pub open spec fn spans_v(s: Seq<Span>) -> Seq<SpanV> {
    s.map_values(|x: Span| span_v(x))
}

/// A line's spans and style.
pub open spec fn line_v(l: Line) -> LineV {
    (spans_v(l.spans@), l.style)
}

/// The values of a list of lines.
pub open spec fn lines_v(ls: Seq<Line>) -> Seq<LineV> {
    ls.map_values(|l: Line| line_v(l))
}

/// The lines of a text, as values.
pub open spec fn text_v(t: Text) -> Seq<LineV> {
    lines_v(t.lines@)
}

/// The spans made of a string without a style: one span per line of it.
pub open spec fn raw_spans(s: Seq<char>) -> Seq<SpanV> {
    lines(s).map_values(|l: Seq<char>| (l, plain()))
}

/// The lines made of a string without a style: one line per line of it, each
/// its text as one span (the empty string makes one empty line).
pub open spec fn raw_text(s: Seq<char>) -> Seq<LineV> {
    if s.len() == 0 {
        seq![(seq![], plain())]
    } else {
        lines(s).map_values(|l: Seq<char>| (raw_spans(l), plain()))
    }
}

impl Span {
    /// A span of `content` in `style`.
    pub fn styled(content: &str, style: Style) -> (r: Span)
        ensures
            span_v(r) == (content@, style),
    {
        Span { content: owned(content), style }
    }

    /// A span of the characters `content` in `style`.
    pub fn styled_chars(content: &[char], style: Style) -> (r: Span)
        ensures
            span_v(r) == (content@, style),
    {
        Span { content: string_of(content), style }
    }

    /// A span of `content` without a style.
    pub fn raw(content: &str) -> (r: Span)
        ensures
            span_v(r) == (content@, plain()),
    {
        Span { content: owned(content), style: Style::new() }
    }
}

/// One unstyled span per line of `s`.
pub fn raw_spans_of(s: &[char]) -> (r: Vec<Span>)
    ensures
        spans_v(r@) == raw_spans(s@),
{
    let ls = lines_of(s);
    let mut r: Vec<Span> = Vec::new();
    let mut i: usize = 0;
    while i < ls.len()
        invariant
            i <= ls@.len(),
            ls@.len() == lines(s@).len(),
            forall|k: int| 0 <= k < ls@.len() ==> #[trigger] ls@[k]@ == lines(s@)[k],
            spans_v(r@) == raw_spans(s@).take(i as int),
        decreases ls.len() - i,
    {
        let ghost old_r = r@;
        r.push(Span::styled_chars(ls[i].as_slice(), Style::new()));
        proof {
            assert(spans_v(r@) =~= spans_v(old_r).push(span_v(r@[i as int])));
            assert(raw_spans(s@).take(i + 1) =~= raw_spans(s@).take(i as int).push(raw_spans(s@)[i as int]));
        }
        i += 1;
    }
    proof {
        assert(raw_spans(s@).take(i as int) =~= raw_spans(s@));
    }
    r
}

impl Span {
    /// A copy of the span.
    pub fn duplicate(&self) -> (r: Span)
        ensures
            span_v(r) == span_v(*self),
    {
        Span { content: self.content.clone(), style: self.style }
    }
}

impl Line {
    /// A copy of the line.
    pub fn duplicate(&self) -> (r: Line)
        ensures
            line_v(r) == line_v(*self),
    {
        let mut spans: Vec<Span> = Vec::new();
        let mut i: usize = 0;
        while i < self.spans.len()
            invariant
                i <= self.spans@.len(),
                spans_v(spans@) == spans_v(self.spans@).take(i as int),
            decreases self.spans.len() - i,
        {
            let ghost before = spans@;
            spans.push(self.spans[i].duplicate());
            proof {
                assert(spans_v(spans@) =~= spans_v(before).push(span_v(spans@[i as int])));
                assert(spans_v(self.spans@).take(i + 1) =~= spans_v(self.spans@).take(i as int).push(
                    spans_v(self.spans@)[i as int],
                ));
            }
            i += 1;
        }
        proof {
            assert(spans_v(self.spans@).take(i as int) =~= spans_v(self.spans@));
        }
        Line { spans, style: self.style }
    }

    /// A line of `spans` without a line style.
    pub fn from_spans(spans: Vec<Span>) -> (r: Line)
        ensures
            line_v(r) == (spans_v(spans@), plain()),
    {
        Line { spans, style: Style::new() }
    }

    /// A line of `content` (one span per line of it) with the line style `style`.
    pub fn styled(content: &str, style: Style) -> (r: Line)
        ensures
            line_v(r) == (raw_spans(content@), style),
    {
        let cs = chars_of(content);
        Line { spans: raw_spans_of(cs.as_slice()), style }
    }
}

impl Text {
    /// A copy of the text.
    pub fn duplicate(&self) -> (r: Text)
        ensures
            text_v(r) == text_v(*self),
    {
        let mut lines: Vec<Line> = Vec::new();
        let mut i: usize = 0;
        while i < self.lines.len()
            invariant
                i <= self.lines@.len(),
                lines_v(lines@) == lines_v(self.lines@).take(i as int),
            decreases self.lines.len() - i,
        {
            let ghost before = lines@;
            lines.push(self.lines[i].duplicate());
            proof {
                assert(lines_v(lines@) =~= lines_v(before).push(line_v(lines@[i as int])));
                assert(lines_v(self.lines@).take(i + 1) =~= lines_v(self.lines@).take(i as int).push(
                    lines_v(self.lines@)[i as int],
                ));
            }
            i += 1;
        }
        proof {
            assert(lines_v(self.lines@).take(i as int) =~= lines_v(self.lines@));
        }
        Text { lines }
    }

    /// Text of the given lines.
    pub fn from_lines(lines: Vec<Line>) -> (r: Text)
        ensures
            text_v(r) == lines_v(lines@),
    {
        Text { lines }
    }

    /// Text of `content` without a style: one line per line of it.
    pub fn raw(content: &str) -> (r: Text)
        ensures
            text_v(r) == raw_text(content@),
    {
        let cs = chars_of(content);
        let mut out: Vec<Line> = Vec::new();
        if cs.len() == 0 {
            let empty: Vec<Span> = Vec::new();
            proof {
                assert(spans_v(empty@) =~= Seq::<SpanV>::empty());
            }
            out.push(Line::from_spans(empty));
            proof {
                assert(lines_v(out@) =~= raw_text(content@));
            }
            return Text { lines: out };
        }
        let ls = lines_of(cs.as_slice());
        let mut i: usize = 0;
        while i < ls.len()
            invariant
                i <= ls@.len(),
                cs@ == content@,
                cs@.len() > 0,
                ls@.len() == lines(cs@).len(),
                forall|k: int| 0 <= k < ls@.len() ==> #[trigger] ls@[k]@ == lines(cs@)[k],
                lines_v(out@) == raw_text(cs@).take(i as int),
            decreases ls.len() - i,
        {
            let ghost old_out = out@;
            out.push(Line::from_spans(raw_spans_of(ls[i].as_slice())));
            proof {
                assert(lines_v(out@) =~= lines_v(old_out).push(line_v(out@[i as int])));
                assert(raw_text(cs@).take(i + 1) =~= raw_text(cs@).take(i as int).push(raw_text(cs@)[i as int]));
            }
            i += 1;
        }
        proof {
            assert(raw_text(cs@).take(i as int) =~= raw_text(cs@));
        }
        Text { lines: out }
    }
}

} // verus!
