//! Render Markdown to styled text for the preview pane: the Markdown is
//! parsed into events by `pulldown-cmark`, and a renderer turns the events
//! into lines of styled spans.

use vstd::prelude::*;
use pulldown_cmark::{Event, Options, Parser, Tag, TagEnd};
use crate::common::theme::{
    Color, Style, accent, accent_spec, footer, footer_spec, muted, muted_spec, plain, row,
    row_spec, with_bg, with_bold, with_crossed_out, with_fg, with_italic, with_underline,
};
use crate::common::styled::{Line, LineV, Span, SpanV, Text, line_v, lines_v, span_v, spans_v, text_v};
use crate::text::{append_chars, append_str, chars_of, decimal, decimal_chars, split, split_chars, string_of, views};

verus! {

/// A `pulldown-cmark` event.
#[verifier::external_type_specification]
#[verifier::external_body]
pub struct ExEvent<'a>(Event<'a>);

/// A `pulldown-cmark` start tag.
#[verifier::external_type_specification]
#[verifier::external_body]
pub struct ExTag<'a>(Tag<'a>);

/// A `pulldown-cmark` end tag.
#[verifier::external_type_specification]
#[verifier::external_body]
pub struct ExTagEnd(TagEnd);

/// The start tags the renderer distinguishes.
#[derive(Debug, Clone)]
pub enum MdTag {
    Paragraph,
    /// A heading, with its level (1 to 6).
    Heading(u8),
    CodeBlock,
    /// A list; `Some(n)` for an ordered list starting at `n`.
    List(Option<u64>),
    Item,
    Emphasis,
    Strong,
    Strikethrough,
    Link,
    Other,
}

/// The end tags the renderer distinguishes.
#[derive(Debug, Clone)]
pub enum MdTagEnd {
    Paragraph,
    Heading,
    CodeBlock,
    List,
    Item,
    Emphasis,
    Strong,
    Strikethrough,
    Link,
    Other,
}

/// The Markdown events the renderer distinguishes.
#[derive(Debug, Clone)]
pub enum MdEvent {
    Start(MdTag),
    End(MdTagEnd),
    Text(String),
    Code(String),
    SoftBreak,
    HardBreak,
    Rule,
    Other,
}

/// The events `pulldown-cmark` produces for a Markdown text (parsed with
/// strikethrough enabled).
pub uninterp spec fn markdown_events(markdown: Seq<char>) -> Seq<MdEvent>;

/// Converts a `pulldown-cmark` start tag, variant by variant; a heading's
/// `HeadingLevel` becomes its number (the enum's discriminant, 1 to 6).
#[verifier::external_body]
fn md_tag(tag: Tag<'_>) -> MdTag {
    match tag {
        Tag::Paragraph => MdTag::Paragraph,
        Tag::Heading { level, .. } => MdTag::Heading(level as u8),
        Tag::CodeBlock(_) => MdTag::CodeBlock,
        Tag::List(start) => MdTag::List(start),
        Tag::Item => MdTag::Item,
        Tag::Emphasis => MdTag::Emphasis,
        Tag::Strong => MdTag::Strong,
        Tag::Strikethrough => MdTag::Strikethrough,
        Tag::Link { .. } => MdTag::Link,
        _ => MdTag::Other,
    }
}

/// Converts a `pulldown-cmark` end tag, variant by variant.
#[verifier::external_body]
fn md_tag_end(tag: TagEnd) -> MdTagEnd {
    match tag {
        TagEnd::Paragraph => MdTagEnd::Paragraph,
        TagEnd::Heading(_) => MdTagEnd::Heading,
        TagEnd::CodeBlock => MdTagEnd::CodeBlock,
        TagEnd::List(_) => MdTagEnd::List,
        TagEnd::Item => MdTagEnd::Item,
        TagEnd::Emphasis => MdTagEnd::Emphasis,
        TagEnd::Strong => MdTagEnd::Strong,
        TagEnd::Strikethrough => MdTagEnd::Strikethrough,
        TagEnd::Link => MdTagEnd::Link,
        _ => MdTagEnd::Other,
    }
}

/// Converts a `pulldown-cmark` event, variant by variant.
#[verifier::external_body]
fn md_event(ev: Event<'_>) -> MdEvent {
    match ev {
        Event::Start(t) => MdEvent::Start(md_tag(t)),
        Event::End(t) => MdEvent::End(md_tag_end(t)),
        Event::Text(t) => MdEvent::Text(t.to_string()),
        Event::Code(t) => MdEvent::Code(t.to_string()),
        Event::SoftBreak => MdEvent::SoftBreak,
        Event::HardBreak => MdEvent::HardBreak,
        Event::Rule => MdEvent::Rule,
        _ => MdEvent::Other,
    }
}

/// Parses Markdown with `pulldown-cmark` (`Parser::new_ext` with
/// `Options::ENABLE_STRIKETHROUGH`) into the event list; the contract only
/// names the result.
#[verifier::external_body]
pub fn parse_markdown(markdown: &str) -> (r: Vec<MdEvent>)
    ensures
        r@ == markdown_events(markdown@),
{
    Parser::new_ext(markdown, Options::ENABLE_STRIKETHROUGH).map(md_event).collect()
}

/// The renderer's state as a value: finished lines, the line being built,
/// the inline style stack, the open lists (`Some(next number)` for ordered
/// ones) and whether a code block is open.
pub type RView = (Seq<LineV>, Seq<SpanV>, Seq<Style>, Seq<Option<u64>>, bool);

/// Near-black text for the level-1 heading bar.
pub open spec fn ink_spec() -> Color {
    Color::Rgb(0x1c, 0x14, 0x20)
}

/// End the current line, if it has any spans.
pub open spec fn r_flush(r: RView) -> RView {
    if r.1.len() > 0 {
        (r.0.push((r.1, plain())), seq![], r.2, r.3, r.4)
    } else {
        r
    }
}

/// Add a blank separator line, unless there are no lines yet or the last
/// line is already blank.
pub open spec fn r_blank(r: RView) -> RView {
    if r.0.len() == 0 || r.0.last().0.len() == 0 {
        r
    } else {
        (r.0.push((seq![], plain())), r.1, r.2, r.3, r.4)
    }
}

/// The style on top of the stack (the empty style if none).
pub open spec fn r_style(r: RView) -> Style {
    if r.2.len() > 0 {
        r.2.last()
    } else {
        plain()
    }
}

/// Add a span to the current line.
pub open spec fn r_push(r: RView, s: Seq<char>, st: Style) -> RView {
    (r.0, r.1.push((s, st)), r.2, r.3, r.4)
}

/// Code block text: each piece between newlines is a muted span, and each
/// newline ends the line.
pub open spec fn r_code_parts(r: RView, parts: Seq<Seq<char>>, first: bool) -> RView
    decreases parts.len(),
{
    if parts.len() == 0 {
        r
    } else {
        let r1 = if first {
            r
        } else {
            r_flush(r)
        };
        r_code_parts(r_push(r1, parts[0], muted_spec()), parts.drop_first(), false)
    }
}

/// The style of a heading: a filled accent bar with dark bold text for level
/// 1, bold accent text otherwise.
pub open spec fn heading_style(level: u8) -> Style {
    if level == 1 {
        with_bold(with_fg(with_bg(plain(), accent_spec()), ink_spec()))
    } else {
        with_bold(with_fg(plain(), accent_spec()))
    }
}

/// `n` copies of two spaces.
pub open spec fn indent(n: nat) -> Seq<char>
    decreases n,
{
    if n == 0 {
        seq![]
    } else {
        indent((n - 1) as nat) + "  "@
    }
}

/// `n + 1`, wrapping at `u64::MAX`.
pub open spec fn bump(n: u64) -> u64 {
    if n == u64::MAX {
        0
    } else {
        (n + 1) as u64
    }
}

/// A list item begins: end the line, then a muted marker indented by the
/// nesting depth (`n. ` for an ordered list, whose counter advances; `• `
/// otherwise).
pub open spec fn r_item(r: RView) -> RView {
    let r1 = r_flush(r);
    let depth: nat = if r1.3.len() > 0 {
        (r1.3.len() - 1) as nat
    } else {
        0
    };
    if r1.3.len() > 0 && r1.3.last() is Some {
        let n = r1.3.last()->0;
        let marker = indent(depth) + decimal(n as nat) + ". "@;
        r_push((r1.0, r1.1, r1.2, r1.3.update(r1.3.len() - 1, Some(bump(n))), r1.4), marker, muted_spec())
    } else {
        r_push(r1, indent(depth) + "• "@, muted_spec())
    }
}

/// A list item in an ordered list whose counter is `n`: the item's line
/// starts with the marker `n. ` (indented two spaces per enclosing list),
/// and the list's counter becomes `n + 1`; the enclosing lists' counters are
/// untouched. In a bullet list the marker is `• ` and no counter moves.
pub proof fn lemma_item_numbering(r: RView)
    requires
        r.3.len() > 0,
    ensures
        ({
            let r2 = r_item(r);
            let top = r.3.len() - 1;
            &&& r2.3.len() == r.3.len()
            &&& forall|k: int| 0 <= k < top ==> #[trigger] r2.3[k] == r.3[k]
            &&& r2.1.len() == 1
            &&& match r.3[top] {
                Some(n) => {
                    &&& r2.1[0].0 == Seq::new((2 * top) as nat, |_i: int| ' ') + decimal(n as nat) + ". "@
                    &&& (n < u64::MAX ==> r2.3[top] == Some((n + 1) as u64))
                },
                None => {
                    &&& r2.1[0].0 == Seq::new((2 * top) as nat, |_i: int| ' ') + "• "@
                    &&& r2.3[top] is None
                },
            }
        }),
{
    let top = r.3.len() - 1;
    lemma_indent_spaces(top as nat);
    reveal_strlit("  ");
}

/// `indent(d)` is `2 * d` spaces.
pub proof fn lemma_indent_spaces(d: nat)
    ensures
        indent(d) == Seq::new(2 * d, |_i: int| ' '),
    decreases d,
{
    reveal_strlit("  ");
    if d > 0 {
        lemma_indent_spaces((d - 1) as nat);
        assert(indent(d) =~= Seq::new(2 * d, |_i: int| ' '));
    } else {
        assert(indent(d) =~= Seq::new(2 * d, |_i: int| ' '));
    }
}

/// Push a style onto the stack.
pub open spec fn r_push_style(r: RView, st: Style) -> RView {
    (r.0, r.1, r.2.push(st), r.3, r.4)
}

/// Pop the style stack (no change when empty).
pub open spec fn r_pop_style(r: RView) -> RView {
    if r.2.len() > 0 {
        (r.0, r.1, r.2.drop_last(), r.3, r.4)
    } else {
        r
    }
}

/// What a start tag does.
pub open spec fn r_start(r: RView, tag: MdTag) -> RView {
    match tag {
        MdTag::Heading(level) => {
            let r1 = r_blank(r_flush(r));
            let st = heading_style(level);
            let r2 = r_push_style(r1, st);
            if st.bg is Some {
                r_push(r2, " "@, st)
            } else {
                r2
            }
        },
        MdTag::CodeBlock => {
            let r1 = r_blank(r_flush(r));
            (r1.0, r1.1, r1.2, r1.3, true)
        },
        MdTag::List(start) => (r.0, r.1, r.2, r.3.push(start), r.4),
        MdTag::Item => r_item(r),
        MdTag::Emphasis => r_push_style(r, with_italic(r_style(r))),
        MdTag::Strong => r_push_style(r, with_bold(r_style(r))),
        MdTag::Strikethrough => r_push_style(r, with_crossed_out(r_style(r))),
        MdTag::Link => r_push_style(r, with_underline(with_fg(r_style(r), accent_spec()))),
        _ => r,
    }
}

/// What an end tag does.
pub open spec fn r_end(r: RView, tag: MdTagEnd) -> RView {
    match tag {
        MdTagEnd::Paragraph => r_blank(r_flush(r)),
        MdTagEnd::Heading => {
            let r1 = if r.2.len() > 0 && r.2.last().bg is Some {
                r_push(r, " "@, r.2.last())
            } else {
                r
            };
            r_blank(r_flush(r_pop_style(r1)))
        },
        MdTagEnd::CodeBlock => {
            let r1 = r_flush(r);
            r_blank((r1.0, r1.1, r1.2, r1.3, false))
        },
        MdTagEnd::List => {
            let r1 = if r.3.len() > 0 {
                (r.0, r.1, r.2, r.3.drop_last(), r.4)
            } else {
                r
            };
            r_blank(r1)
        },
        MdTagEnd::Item => r_flush(r),
        MdTagEnd::Emphasis | MdTagEnd::Strong | MdTagEnd::Strikethrough | MdTagEnd::Link => r_pop_style(r),
        _ => r,
    }
}

/// Inline styles nest: inside `**`, `*`, `~~` and a link the text is bold,
/// italic, crossed out, or underlined in the accent colour, on top of the
/// style around it; the matching end tag restores the state exactly. A list
/// ending gives back the counters of the lists around it, and a code block
/// is entered by its start tag and left by its end tag.
pub proof fn lemma_tags_nest(r: RView, start: Option<u64>)
    ensures
        r_style(r_start(r, MdTag::Strong)) == with_bold(r_style(r)),
        r_style(r_start(r, MdTag::Strong)).add_modifier.bold,
        r_style(r_start(r, MdTag::Emphasis)).add_modifier.italic,
        r_style(r_start(r, MdTag::Emphasis)) == with_italic(r_style(r)),
        r_style(r_start(r, MdTag::Strikethrough)).add_modifier.crossed_out,
        r_style(r_start(r, MdTag::Strikethrough)) == with_crossed_out(r_style(r)),
        r_style(r_start(r, MdTag::Link)).add_modifier.underlined,
        r_style(r_start(r, MdTag::Link)).fg == Some(accent_spec()),
        r_end(r_start(r, MdTag::Strong), MdTagEnd::Strong) == r,
        r_end(r_start(r, MdTag::Emphasis), MdTagEnd::Emphasis) == r,
        r_end(r_start(r, MdTag::Strikethrough), MdTagEnd::Strikethrough) == r,
        r_end(r_start(r, MdTag::Link), MdTagEnd::Link) == r,
        r_start(r, MdTag::List(start)).3 == r.3.push(start),
        r_end(r_start(r, MdTag::List(start)), MdTagEnd::List).3 == r.3,
        r_start(r, MdTag::CodeBlock).4,
        !r_end(r, MdTagEnd::CodeBlock).4,
{
    assert(r.2.push(with_bold(r_style(r))).drop_last() =~= r.2);
    assert(r.2.push(with_italic(r_style(r))).drop_last() =~= r.2);
    assert(r.2.push(with_crossed_out(r_style(r))).drop_last() =~= r.2);
    assert(r.2.push(with_underline(with_fg(r_style(r), accent_spec()))).drop_last() =~= r.2);
    assert(r.3.push(start).drop_last() =~= r.3);
}

/// A level-1 heading is a bar: bold ink on the accent colour; deeper
/// headings are bold accent text with no background.
pub proof fn lemma_heading_looks(level: u8)
    ensures
        level == 1 ==> heading_style(level).bg == Some(accent_spec()) && heading_style(level).fg == Some(ink_spec())
            && heading_style(level).add_modifier.bold,
        level != 1 ==> heading_style(level).bg is None && heading_style(level).fg == Some(accent_spec())
            && heading_style(level).add_modifier.bold,
{
}

/// The rule line: a dim horizontal bar.
pub open spec fn rule_line() -> LineV {
    (seq![("────────────────"@, plain())], footer_spec())
}

/// What one event does to the renderer state.
pub open spec fn r_step(r: RView, e: MdEvent) -> RView {
    match e {
        MdEvent::Start(tag) => r_start(r, tag),
        MdEvent::End(tag) => r_end(r, tag),
        MdEvent::Text(t) => if r.4 {
            r_code_parts(r, split(t@, '\n'), true)
        } else {
            r_push(r, t@, r_style(r))
        },
        MdEvent::Code(t) => r_push(r, t@, with_fg(plain(), accent_spec())),
        MdEvent::SoftBreak => r_push(r, " "@, r_style(r)),
        MdEvent::HardBreak => r_flush(r),
        MdEvent::Rule => {
            let r1 = r_blank(r_flush(r));
            r_blank((r1.0.push(rule_line()), r1.1, r1.2, r1.3, r1.4))
        },
        _ => r,
    }
}

/// The renderer state after `events`, in order.
pub open spec fn r_run(r: RView, events: Seq<MdEvent>) -> RView
    decreases events.len(),
{
    if events.len() == 0 {
        r
    } else {
        r_run(r_step(r, events[0]), events.drop_first())
    }
}

/// The initial state: no lines, the row style on the stack.
pub open spec fn r_init() -> RView {
    (seq![], seq![], seq![row_spec()], seq![], false)
}

/// `ls` without its trailing blank lines.
pub open spec fn drop_trailing_blanks(ls: Seq<LineV>) -> Seq<LineV>
    decreases ls.len(),
{
    if ls.len() > 0 && ls.last().0.len() == 0 {
        drop_trailing_blanks(ls.drop_last())
    } else {
        ls
    }
}


/// Lines are tidy: no blank line comes first or right after another blank.
pub open spec fn tidy(ls: Seq<LineV>) -> bool {
    forall|i: int| 0 <= i < ls.len() && (#[trigger] ls[i]).0.len() == 0 ==> i > 0 && ls[i - 1].0.len() > 0
}

proof fn lemma_flush_tidy(r: RView)
    requires
        tidy(r.0),
    ensures
        tidy(r_flush(r).0),
{
    if r.1.len() > 0 {
        let ls = r_flush(r).0;
        assert forall|i: int| 0 <= i < ls.len() && (#[trigger] ls[i]).0.len() == 0 implies i > 0 && ls[i - 1].0.len() > 0 by {
            assert(i < r.0.len());
            assert(ls[i] == r.0[i]);
            assert(ls[i - 1] == r.0[i - 1]);
        }
    }
}

proof fn lemma_blank_tidy(r: RView)
    requires
        tidy(r.0),
    ensures
        tidy(r_blank(r).0),
{
    if !(r.0.len() == 0 || r.0.last().0.len() == 0) {
        let ls = r_blank(r).0;
        assert forall|i: int| 0 <= i < ls.len() && (#[trigger] ls[i]).0.len() == 0 implies i > 0 && ls[i - 1].0.len() > 0 by {
            if i < r.0.len() {
                assert(ls[i] == r.0[i]);
                if i > 0 {
                    assert(ls[i - 1] == r.0[i - 1]);
                }
            } else {
                assert(ls[i - 1] == r.0.last());
            }
        }
    }
}

proof fn lemma_push_line_tidy(ls: Seq<LineV>, l: LineV)
    requires
        tidy(ls),
        l.0.len() > 0,
    ensures
        tidy(ls.push(l)),
{
    let t = ls.push(l);
    assert forall|i: int| 0 <= i < t.len() && (#[trigger] t[i]).0.len() == 0 implies i > 0 && t[i - 1].0.len() > 0 by {
        assert(i < ls.len());
        assert(t[i] == ls[i]);
        assert(t[i - 1] == ls[i - 1]);
    }
}

proof fn lemma_code_parts_tidy(r: RView, parts: Seq<Seq<char>>, first: bool)
    requires
        tidy(r.0),
    ensures
        tidy(r_code_parts(r, parts, first).0),
    decreases parts.len(),
{
    if parts.len() > 0 {
        let r1 = if first { r } else { r_flush(r) };
        lemma_flush_tidy(r);
        lemma_code_parts_tidy(r_push(r1, parts[0], muted_spec()), parts.drop_first(), false);
    }
}

proof fn lemma_step_tidy(r: RView, e: MdEvent)
    requires
        tidy(r.0),
    ensures
        tidy(r_step(r, e).0),
{
    lemma_flush_tidy(r);
    lemma_blank_tidy(r_flush(r));
    match e {
        MdEvent::Start(tag) => {
            match tag {
                MdTag::Item => {
                    lemma_flush_tidy(r);
                },
                _ => {},
            }
        },
        MdEvent::End(tag) => {
            match tag {
                MdTagEnd::Heading => {
                    let r1 = if r.2.len() > 0 && r.2.last().bg is Some {
                        r_push(r, " "@, r.2.last())
                    } else {
                        r
                    };
                    lemma_flush_tidy(r_pop_style(r1));
                    lemma_blank_tidy(r_flush(r_pop_style(r1)));
                },
                MdTagEnd::CodeBlock => {
                    let r1 = r_flush(r);
                    lemma_blank_tidy((r1.0, r1.1, r1.2, r1.3, false));
                },
                MdTagEnd::List => {
                    let r1 = if r.3.len() > 0 {
                        (r.0, r.1, r.2, r.3.drop_last(), r.4)
                    } else {
                        r
                    };
                    lemma_blank_tidy(r1);
                },
                _ => {},
            }
        },
        MdEvent::Text(t) => {
            if r.4 {
                lemma_code_parts_tidy(r, split(t@, '\n'), true);
            }
        },
        MdEvent::Rule => {
            let r1 = r_blank(r_flush(r));
            lemma_push_line_tidy(r1.0, rule_line());
            lemma_blank_tidy((r1.0.push(rule_line()), r1.1, r1.2, r1.3, r1.4));
        },
        _ => {},
    }
}

proof fn lemma_run_tidy(r: RView, events: Seq<MdEvent>)
    requires
        tidy(r.0),
    ensures
        tidy(r_run(r, events).0),
    decreases events.len(),
{
    if events.len() > 0 {
        lemma_step_tidy(r, events[0]);
        lemma_run_tidy(r_step(r, events[0]), events.drop_first());
    }
}

proof fn lemma_drop_trailing_tidy(ls: Seq<LineV>)
    requires
        tidy(ls),
    ensures
        tidy(drop_trailing_blanks(ls)),
        drop_trailing_blanks(ls).len() > 0 ==> drop_trailing_blanks(ls).last().0.len() > 0,
    decreases ls.len(),
{
    if ls.len() > 0 && ls.last().0.len() == 0 {
        let d = ls.drop_last();
        assert forall|i: int| 0 <= i < d.len() && (#[trigger] d[i]).0.len() == 0 implies i > 0 && d[i - 1].0.len() > 0 by {
            assert(d[i] == ls[i]);
            assert(d[i - 1] == ls[i - 1]);
        }
        lemma_drop_trailing_tidy(d);
    }
}

/// The rendered text has no blank line at its start or its end, and never
/// two blank lines in a row.
pub proof fn lemma_rendered_tidy(events: Seq<MdEvent>)
    ensures
        tidy(rendered(events)),
        rendered(events).len() > 0 ==> rendered(events).last().0.len() > 0,
{
    lemma_run_tidy(r_init(), events);
    lemma_flush_tidy(r_run(r_init(), events));
    lemma_drop_trailing_tidy(r_flush(r_run(r_init(), events)).0);
}

/// The rendered lines for a list of events.
pub open spec fn rendered(events: Seq<MdEvent>) -> Seq<LineV> {
    drop_trailing_blanks(r_flush(r_run(r_init(), events)).0)
}

struct Renderer {
    lines: Vec<Line>,
    cur: Vec<Span>,
    styles: Vec<Style>,
    lists: Vec<Option<u64>>,
    in_code_block: bool,
}

impl Renderer {
    spec fn view(&self) -> RView {
        (lines_v(self.lines@), spans_v(self.cur@), self.styles@, self.lists@, self.in_code_block)
    }

    fn new() -> (r: Renderer)
        ensures
            r.view() == r_init(),
    {
        let mut styles: Vec<Style> = Vec::new();
        styles.push(row());
        let r = Renderer {
            lines: Vec::new(),
            cur: Vec::new(),
            styles,
            lists: Vec::new(),
            in_code_block: false,
        };
        proof {
            assert(r.view().0 =~= Seq::<LineV>::empty());
            assert(r.view().1 =~= Seq::<SpanV>::empty());
        }
        r
    }

    fn style(&self) -> (r: Style)
        ensures
            r == r_style(self.view()),
    {
        if self.styles.len() > 0 {
            self.styles[self.styles.len() - 1]
        } else {
            Style::new()
        }
    }

    fn push(&mut self, s: Vec<char>, style: Style)
        ensures
            final(self).view() == r_push(old(self).view(), s@, style),
    {
        let span = Span { content: string_of(s.as_slice()), style };
        let ghost c = self.cur@;
        self.cur.push(span);
        proof {
            assert(spans_v(self.cur@) =~= spans_v(c).push(span_v(span)));
        }
    }

    fn flush(&mut self)
        ensures
            final(self).view() == r_flush(old(self).view()),
    {
        if self.cur.len() > 0 {
            let mut cur: Vec<Span> = Vec::new();
            std::mem::swap(&mut cur, &mut self.cur);
            let line = Line { spans: cur, style: Style::new() };
            let ghost ls = self.lines@;
            self.lines.push(line);
            proof {
                assert(lines_v(self.lines@) =~= lines_v(ls).push(line_v(line)));
                assert(spans_v(self.cur@) =~= Seq::<SpanV>::empty());
            }
        }
    }

    fn blank(&mut self)
        ensures
            final(self).view() == r_blank(old(self).view()),
    {
        let n = self.lines.len();
        if n == 0 {
            return;
        }
        if self.lines[n - 1].spans.len() == 0 {
            return;
        }
        let line = Line { spans: Vec::new(), style: Style::new() };
        let ghost ls = self.lines@;
        self.lines.push(line);
        proof {
            assert(line_v(line).0 =~= Seq::<SpanV>::empty());
            assert(lines_v(self.lines@) =~= lines_v(ls).push(line_v(line)));
        }
    }

    fn code_text(&mut self, t: &String)
        ensures
            final(self).view() == r_code_parts(old(self).view(), split(t@, '\n'), true),
    {
        let tc = chars_of(t.as_str());
        let parts = split_chars(tc.as_slice(), '\n');
        let ghost ps = views(parts@);
        let mut i: usize = 0;
        proof {
            assert(ps.skip(0) =~= ps);
        }
        while i < parts.len()
            invariant
                i <= parts@.len(),
                ps == views(parts@),
                ps == split(t@, '\n'),
                r_code_parts(old(self).view(), ps, true) == r_code_parts(
                    self.view(),
                    ps.skip(i as int),
                    i == 0,
                ),
            decreases parts.len() - i,
        {
            if i > 0 {
                self.flush();
            }
            let part = crate::text::copy_chars(parts[i].as_slice());
            self.push(part, muted());
            proof {
                assert(ps.skip(i as int).drop_first() =~= ps.skip(i + 1));
                assert(ps.skip(i as int)[0] == ps[i as int]);
            }
            i += 1;
        }
    }

    fn item(&mut self)
        ensures
            final(self).view() == r_item(old(self).view()),
    {
        self.flush();
        let depth: usize = if self.lists.len() > 0 {
            self.lists.len() - 1
        } else {
            0
        };
        let mut marker: Vec<char> = Vec::new();
        let mut k: usize = 0;
        while k < depth
            invariant
                k <= depth,
                marker@ == indent(k as nat),
            decreases depth - k,
        {
            append_str(&mut marker, "  ");
            k += 1;
        }
        let n = self.lists.len();
        if n > 0 {
            match self.lists[n - 1] {
                Some(c) => {
                    let d = decimal_chars(c);
                    append_chars(&mut marker, d.as_slice());
                    append_str(&mut marker, ". ");
                    let next = if c == u64::MAX {
                        0
                    } else {
                        c + 1
                    };
                    self.lists.set(n - 1, Some(next));
                    self.push(marker, muted());
                    return;
                },
                None => {},
            }
        }
        append_str(&mut marker, "• ");
        self.push(marker, muted());
    }

    fn pop_style(&mut self)
        ensures
            final(self).view() == r_pop_style(old(self).view()),
    {
        if self.styles.len() > 0 {
            self.styles.pop();
        }
    }

    fn start(&mut self, tag: &MdTag)
        ensures
            final(self).view() == r_start(old(self).view(), *tag),
    {
        match tag {
            MdTag::Paragraph => {},
            MdTag::Heading(level) => {
                self.flush();
                self.blank();
                let style = if *level == 1 {
                    Style::new().bg(accent()).fg(Color::Rgb(0x1c, 0x14, 0x20)).bold()
                } else {
                    Style::new().fg(accent()).bold()
                };
                self.styles.push(style);
                if style.bg.is_some() {
                    self.push(chars_of(" "), style);
                }
            },
            MdTag::CodeBlock => {
                self.flush();
                self.blank();
                self.in_code_block = true;
            },
            MdTag::List(start) => {
                self.lists.push(*start);
            },
            MdTag::Item => {
                self.item();
            },
            MdTag::Emphasis => {
                let s = self.style().italic();
                self.styles.push(s);
            },
            MdTag::Strong => {
                let s = self.style().bold();
                self.styles.push(s);
            },
            MdTag::Strikethrough => {
                let s = self.style().crossed_out();
                self.styles.push(s);
            },
            MdTag::Link => {
                let s = self.style().fg(accent()).underlined();
                self.styles.push(s);
            },
            MdTag::Other => {},
        }
    }

    fn end(&mut self, tag: &MdTagEnd)
        ensures
            final(self).view() == r_end(old(self).view(), *tag),
    {
        match tag {
            MdTagEnd::Paragraph => {
                self.flush();
                self.blank();
            },
            MdTagEnd::Heading => {
                let n = self.styles.len();
                if n > 0 {
                    let style = self.styles[n - 1];
                    if style.bg.is_some() {
                        self.push(chars_of(" "), style);
                    }
                }
                self.pop_style();
                self.flush();
                self.blank();
            },
            MdTagEnd::CodeBlock => {
                self.flush();
                self.in_code_block = false;
                self.blank();
            },
            MdTagEnd::List => {
                if self.lists.len() > 0 {
                    self.lists.pop();
                }
                self.blank();
            },
            MdTagEnd::Item => {
                self.flush();
            },
            MdTagEnd::Emphasis | MdTagEnd::Strong | MdTagEnd::Strikethrough | MdTagEnd::Link => {
                self.pop_style();
            },
            MdTagEnd::Other => {},
        }
    }

    fn event(&mut self, ev: &MdEvent)
        ensures
            final(self).view() == r_step(old(self).view(), *ev),
    {
        match ev {
            MdEvent::Start(tag) => self.start(tag),
            MdEvent::End(tag) => self.end(tag),
            MdEvent::Text(t) => {
                if self.in_code_block {
                    self.code_text(t);
                } else {
                    let style = self.style();
                    self.push(chars_of(t.as_str()), style);
                }
            },
            MdEvent::Code(t) => {
                let style = Style::new().fg(accent());
                self.push(chars_of(t.as_str()), style);
            },
            MdEvent::SoftBreak => {
                let style = self.style();
                self.push(chars_of(" "), style);
            },
            MdEvent::HardBreak => self.flush(),
            MdEvent::Rule => {
                self.flush();
                self.blank();
                let mut spans: Vec<Span> = Vec::new();
                spans.push(Span { content: crate::text::owned("────────────────"), style: Style::new() });
                let line = Line { spans, style: footer() };
                let ghost ls = self.lines@;
                self.lines.push(line);
                proof {
                    assert(line_v(line).0 =~= seq![("────────────────"@, plain())]);
                    assert(lines_v(self.lines@) =~= lines_v(ls).push(rule_line()));
                }
                self.blank();
            },
            MdEvent::Other => {},
        }
    }

    fn finish(self) -> (t: Text)
        ensures
            text_v(t) == drop_trailing_blanks(r_flush(self.view()).0),
    {
        let mut me = self;
        me.flush();
        let mut lines = me.lines;
        while lines.len() > 0 && lines[lines.len() - 1].spans.len() == 0
            invariant
                drop_trailing_blanks(r_flush(self.view()).0) == drop_trailing_blanks(lines_v(lines@)),
            decreases lines.len(),
        {
            let ghost ls = lines@;
            lines.pop();
            proof {
                assert(lines_v(lines@) =~= lines_v(ls).drop_last());
            }
        }
        Text { lines }
    }
}

/// Render a list of Markdown events to styled lines.
pub fn render_events(events: &Vec<MdEvent>) -> (t: Text)
    ensures
        text_v(t) == rendered(events@),
{
    let mut r = Renderer::new();
    let mut i: usize = 0;
    proof {
        assert(events@.skip(0) =~= events@);
    }
    while i < events.len()
        invariant
            i <= events@.len(),
            r_run(r_init(), events@) == r_run(r.view(), events@.skip(i as int)),
        decreases events.len() - i,
    {
        r.event(&events[i]);
        proof {
            assert(events@.skip(i as int).drop_first() =~= events@.skip(i + 1));
            assert(events@.skip(i as int)[0] == events@[i as int]);
        }
        i += 1;
    }
    proof {
        assert(events@.skip(i as int) =~= Seq::<MdEvent>::empty());
    }
    r.finish()
}

/// Convert Markdown into styled, wrappable text.
pub fn render(markdown: &str) -> (t: Text)
    ensures
        text_v(t) == rendered(markdown_events(markdown@)),
{
    let events = parse_markdown(markdown);
    render_events(&events)
}

} // verus!
