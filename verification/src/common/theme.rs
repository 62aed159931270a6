//! Colour palette and styles, as plain values: the accent mirrors the fzf
//! setup so the pickers match the rest of the environment.

use vstd::prelude::*;

verus! {

/// A 24-bit colour.
#[derive(Debug, Clone, Copy, PartialEq, Eq, Structural)]
pub enum Color {
    Rgb(u8, u8, u8),
}

/// Text modifiers a style adds.
#[derive(Debug, Clone, Copy, PartialEq, Eq, Structural)]
pub struct Modifier {
    pub bold: bool,
    pub italic: bool,
    pub underlined: bool,
    pub crossed_out: bool,
}

/// A text style: optional foreground and background colours plus the
/// modifiers it adds.
#[derive(Debug, Clone, Copy, PartialEq, Eq, Structural)]
pub struct Style {
    pub fg: Option<Color>,
    pub bg: Option<Color>,
    pub add_modifier: Modifier,
}

/// No modifiers.
pub open spec fn no_modifier() -> Modifier {
    Modifier { bold: false, italic: false, underlined: false, crossed_out: false }
}

/// The empty style.
pub open spec fn plain() -> Style {
    Style { fg: None, bg: None, add_modifier: no_modifier() }
}

/// `style` with foreground `c`.
pub open spec fn with_fg(style: Style, c: Color) -> Style {
    Style { fg: Some(c), ..style }
}

/// `style` with background `c`.
pub open spec fn with_bg(style: Style, c: Color) -> Style {
    Style { bg: Some(c), ..style }
}

/// `style` also in bold.
pub open spec fn with_bold(style: Style) -> Style {
    Style { add_modifier: Modifier { bold: true, ..style.add_modifier }, ..style }
}

/// `style` also in italics.
pub open spec fn with_italic(style: Style) -> Style {
    Style { add_modifier: Modifier { italic: true, ..style.add_modifier }, ..style }
}

/// `style` also underlined.
pub open spec fn with_underline(style: Style) -> Style {
    Style { add_modifier: Modifier { underlined: true, ..style.add_modifier }, ..style }
}

/// `style` also crossed out.
pub open spec fn with_crossed_out(style: Style) -> Style {
    Style { add_modifier: Modifier { crossed_out: true, ..style.add_modifier }, ..style }
}

impl Style {
    /// The empty style (`Style::default()`).
    pub fn new() -> (r: Style)
        ensures
            r == plain(),
    {
        Style {
            fg: None,
            bg: None,
            add_modifier: Modifier {
                bold: false,
                italic: false,
                underlined: false,
                crossed_out: false,
            },
        }
    }

    /// This style with foreground `c`.
    pub fn fg(self, c: Color) -> (r: Style)
        ensures
            r == with_fg(self, c),
    {
        Style { fg: Some(c), ..self }
    }

    /// This style with background `c`.
    pub fn bg(self, c: Color) -> (r: Style)
        ensures
            r == with_bg(self, c),
    {
        Style { bg: Some(c), ..self }
    }

    /// This style, bold.
    pub fn bold(self) -> (r: Style)
        ensures
            r == with_bold(self),
    {
        Style { add_modifier: Modifier { bold: true, ..self.add_modifier }, ..self }
    }

    /// This style, italic.
    pub fn italic(self) -> (r: Style)
        ensures
            r == with_italic(self),
    {
        Style { add_modifier: Modifier { italic: true, ..self.add_modifier }, ..self }
    }

    /// This style, underlined.
    pub fn underlined(self) -> (r: Style)
        ensures
            r == with_underline(self),
    {
        Style { add_modifier: Modifier { underlined: true, ..self.add_modifier }, ..self }
    }

    /// This style, crossed out.
    pub fn crossed_out(self) -> (r: Style)
        ensures
            r == with_crossed_out(self),
    {
        Style { add_modifier: Modifier { crossed_out: true, ..self.add_modifier }, ..self }
    }
}

/// Soft blue: the signature accent colour.
pub open spec fn accent_spec() -> Color {
    Color::Rgb(0x82, 0xcf, 0xff)
}

/// Soft blue: the signature accent colour.
pub fn accent() -> (r: Color)
    ensures
        r == accent_spec(),
{
    Color::Rgb(0x82, 0xcf, 0xff)
}

/// Neutral grey selection background.
pub fn sel_bg() -> (r: Color)
    ensures
        r == Color::Rgb(0x26, 0x26, 0x26),
{
    Color::Rgb(0x26, 0x26, 0x26)
}

/// Default row foreground.
pub open spec fn fg_spec() -> Color {
    Color::Rgb(0xc6, 0xc6, 0xc6)
}

/// Default row foreground.
pub fn fg() -> (r: Color)
    ensures
        r == fg_spec(),
{
    Color::Rgb(0xc6, 0xc6, 0xc6)
}

/// Bright foreground for the selected row and the live query.
pub fn fg_bright() -> (r: Color)
    ensures
        r == Color::Rgb(0xf2, 0xf4, 0xf8),
{
    Color::Rgb(0xf2, 0xf4, 0xf8)
}

/// Frame and border colour.
pub fn border_color() -> (r: Color)
    ensures
        r == Color::Rgb(0x39, 0x39, 0x39),
{
    Color::Rgb(0x39, 0x39, 0x39)
}

/// Muted secondary text colour.
pub open spec fn muted_color_spec() -> Color {
    Color::Rgb(0x6f, 0x6f, 0x6f)
}

/// Muted secondary text colour.
pub fn muted_color() -> (r: Color)
    ensures
        r == muted_color_spec(),
{
    Color::Rgb(0x6f, 0x6f, 0x6f)
}

/// Dim tertiary text colour.
pub open spec fn dim_spec() -> Color {
    Color::Rgb(0x52, 0x52, 0x52)
}

/// Dim tertiary text colour.
pub fn dim() -> (r: Color)
    ensures
        r == dim_spec(),
{
    Color::Rgb(0x52, 0x52, 0x52)
}

/// The style of the query prompt.
pub open spec fn prompt_spec() -> Style {
    with_bold(with_fg(plain(), accent_spec()))
}

/// The query prompt: bold accent.
pub fn prompt() -> (r: Style)
    ensures
        r == prompt_spec(),
{
    Style::new().fg(accent()).bold()
}

/// The style of the live query text.
pub open spec fn query_spec() -> Style {
    with_fg(plain(), Color::Rgb(0xf2, 0xf4, 0xf8))
}

/// The live query text.
pub fn query() -> (r: Style)
    ensures
        r == query_spec(),
{
    Style::new().fg(fg_bright())
}

/// The style of a row.
pub open spec fn row_spec() -> Style {
    with_fg(plain(), fg_spec())
}

/// A normal, unselected row.
pub fn row() -> (r: Style)
    ensures
        r == row_spec(),
{
    Style::new().fg(fg())
}

/// The style patched onto the selected row.
pub open spec fn selected_spec() -> Style {
    with_bold(with_bg(plain(), Color::Rgb(0x26, 0x26, 0x26)))
}

/// Patched onto the selected row: background and bold only.
pub fn selected() -> (r: Style)
    ensures
        r == selected_spec(),
{
    Style::new().bg(sel_bg()).bold()
}

/// The style of the selection bar.
pub open spec fn bar_spec() -> Style {
    with_fg(plain(), accent_spec())
}

/// The accent bar marking the selected row.
pub fn bar() -> (r: Style)
    ensures
        r == bar_spec(),
{
    Style::new().fg(accent())
}

/// The style of fuzzy-matched characters.
pub open spec fn match_hl_spec() -> Style {
    with_bold(with_fg(plain(), accent_spec()))
}

/// Fuzzy-matched characters: bold accent.
pub fn match_hl() -> (r: Style)
    ensures
        r == match_hl_spec(),
{
    Style::new().fg(accent()).bold()
}

/// The style of the border frame.
pub open spec fn border_spec() -> Style {
    with_fg(plain(), Color::Rgb(0x39, 0x39, 0x39))
}

/// The rounded border frame.
pub fn border() -> (r: Style)
    ensures
        r == border_spec(),
{
    Style::new().fg(border_color())
}

/// The style of a box title.
pub open spec fn title_spec() -> Style {
    with_bold(with_fg(plain(), accent_spec()))
}

/// The box title: bold accent.
pub fn title() -> (r: Style)
    ensures
        r == title_spec(),
{
    Style::new().fg(accent()).bold()
}

/// The style of a key name in a hint.
pub open spec fn key_spec() -> Style {
    with_fg(plain(), accent_spec())
}

/// A key name in a footer hint.
pub fn key() -> (r: Style)
    ensures
        r == key_spec(),
{
    Style::new().fg(accent())
}

/// The style of footers, counts and the scrollbar track.
pub open spec fn footer_spec() -> Style {
    with_fg(plain(), dim_spec())
}

/// Footer, status, counts and scrollbar track.
pub fn footer() -> (r: Style)
    ensures
        r == footer_spec(),
{
    Style::new().fg(dim())
}

/// The style of muted helper text.
pub open spec fn muted_spec() -> Style {
    with_fg(plain(), muted_color_spec())
}

/// Muted helper text.
pub fn muted() -> (r: Style)
    ensures
        r == muted_spec(),
{
    Style::new().fg(muted_color())
}

} // verus!
