//! Colors and text styles of formatted output, and the styles the provided
//! formatters use.

use vstd::prelude::*;

verus! {

/// Bold text.
pub const BOLD: u32 = 1u32;
/// Underlined text.
pub const UNDERLINE: u32 = 2u32;
/// Dimmed text.
pub const DIMMED: u32 = 4u32;
/// Italic text.
pub const ITALIC: u32 = 8u32;
/// Struck-through text.
pub const STRIKETHROUGH: u32 = 16u32;
/// Text with foreground and background swapped.
pub const REVERSED: u32 = 32u32;

/// The style of text in a terminal emulator: a set of the flags above.
#[derive(Debug, Clone, Copy, PartialEq, Eq, Structural, Hash)]
pub struct TextStyle {
    /// The flags that are set.
    pub bits: u32,
}

impl TextStyle {
    /// No style at all.
    pub fn empty() -> (r: TextStyle)
        ensures
            r.bits == 0,
    {
        TextStyle { bits: 0 }
    }

    /// The style with exactly the given flags.
    pub fn from_bits(bits: u32) -> (r: TextStyle)
        ensures
            r.bits == bits,
    {
        TextStyle { bits }
    }

    /// The flags of both styles.
    pub fn union(self, other: TextStyle) -> (r: TextStyle)
        ensures
            r.bits == self.bits | other.bits,
    {
        TextStyle { bits: self.bits | other.bits }
    }

    /// Whether every flag of `other` is set in this style.
    pub fn contains(&self, other: TextStyle) -> (r: bool)
        ensures
            r == (self.bits & other.bits == other.bits),
    {
        self.bits & other.bits == other.bits
    }

    /// Reset this text style back to the default (no style).
    pub fn reset(&mut self)
        ensures
            final(self).bits == 0,
    {
        let b = self.bits;
        assert(b & 0u32 == 0u32) by (bit_vector);
        self.bits = b & 0u32;
    }
}

impl Default for TextStyle {
    fn default() -> (r: TextStyle)
        ensures
            r.bits == 0,
    {
        TextStyle { bits: 0 }
    }
}

/// A color to display in a terminal emulator.
#[non_exhaustive]
#[derive(Debug, Clone, Copy, PartialEq, Eq, Structural, Hash)]
pub enum Color {
    Black,
    Red,
    Green,
    Yellow,
    Blue,
    Magenta,
    Cyan,
    White,
    BrightBlack,
    BrightRed,
    BrightGreen,
    BrightYellow,
    BrightBlue,
    BrightMagenta,
    BrightCyan,
    BrightWhite,
    Rgb(u8, u8, u8),
}

/// The color of text in a terminal emulator.
#[derive(Debug, Clone, Copy, PartialEq, Eq, Structural, Hash)]
pub struct TextColor {
    /// The foreground color.
    pub fg: Option<Color>,
    /// The background color.
    pub bg: Option<Color>,
}

impl TextColor {
    /// Reset this text color back to the default (no color).
    pub fn reset(&mut self)
        ensures
            final(self).fg is None,
            final(self).bg is None,
    {
        self.fg = None;
        self.bg = None;
    }
}

impl Default for TextColor {
    fn default() -> (r: TextColor)
        ensures
            r == no_color(),
    {
        TextColor { fg: None, bg: None }
    }
}

/// No foreground and no background color.
pub open spec fn no_color() -> TextColor {
    TextColor { fg: None, bg: None }
}

/// The style of text in formatted output.
#[derive(Debug, Clone, Copy, PartialEq, Eq, Structural, Hash)]
pub struct OutputStyle {
    /// The text style flags.
    pub style: TextStyle,
    /// The colors.
    pub color: TextColor,
}

/// The default output style: no flags, no colors.
pub open spec fn plain() -> OutputStyle {
    OutputStyle { style: TextStyle { bits: 0 }, color: no_color() }
}

impl OutputStyle {
    /// The default output style.
    pub fn plain() -> (r: OutputStyle)
        ensures
            r == plain(),
    {
        OutputStyle { style: TextStyle { bits: 0 }, color: TextColor { fg: None, bg: None } }
    }

    /// Reset this output style back to the default.
    pub fn reset(&mut self)
        ensures
            *final(self) == plain(),
    {
        self.style.reset();
        self.color.reset();
    }
}

/// One step of styling a piece of text for a terminal.
#[derive(Debug, Clone, Copy, PartialEq, Eq, Structural)]
pub enum StyleOp {
    /// Set the foreground color.
    Fg(Color),
    /// Set the background color.
    Bg(Color),
    /// Make the text bold.
    Bold,
    /// Underline the text.
    Underline,
    /// Dim the text.
    Dimmed,
    /// Make the text italic.
    Italic,
    /// Strike the text through.
    Strikethrough,
    /// Swap foreground and background.
    Reversed,
}

/// The step for flag `flag` when `bits` has it.
pub open spec fn flag_op(bits: u32, flag: u32, op: StyleOp) -> Seq<StyleOp> {
    if bits & flag == flag {
        seq![op]
    } else {
        seq![]
    }
}

/// The steps for the flags of a text style, in the order the flags are
/// declared.
pub open spec fn text_style_ops(bits: u32) -> Seq<StyleOp> {
    flag_op(bits, BOLD, StyleOp::Bold) + flag_op(bits, UNDERLINE, StyleOp::Underline) + flag_op(
        bits,
        DIMMED,
        StyleOp::Dimmed,
    ) + flag_op(bits, ITALIC, StyleOp::Italic) + flag_op(bits, STRIKETHROUGH, StyleOp::Strikethrough)
        + flag_op(bits, REVERSED, StyleOp::Reversed)
}

/// The steps for the colors of a text color: foreground, then background.
pub open spec fn text_color_ops(c: TextColor) -> Seq<StyleOp> {
    (match c.fg {
        Option::Some(fg) => seq![StyleOp::Fg(fg)],
        Option::None => seq![],
    }) + (match c.bg {
        Option::Some(bg) => seq![StyleOp::Bg(bg)],
        Option::None => seq![],
    })
}

fn push_flag(ops: &mut Vec<StyleOp>, style: &TextStyle, flag: u32, op: StyleOp)
    ensures
        final(ops)@ == old(ops)@ + flag_op(style.bits, flag, op),
{
    if style.contains(TextStyle { bits: flag }) {
        ops.push(op);
        assert(final(ops)@ =~= old(ops)@ + seq![op]);
    } else {
        assert(ops@ =~= old(ops)@ + Seq::<StyleOp>::empty());
    }
}

impl TextStyle {
    /// The steps that style text with these flags.
    pub fn ops(&self) -> (r: Vec<StyleOp>)
        ensures
            r@ == text_style_ops(self.bits),
    {
        let mut ops: Vec<StyleOp> = Vec::new();
        push_flag(&mut ops, self, BOLD, StyleOp::Bold);
        push_flag(&mut ops, self, UNDERLINE, StyleOp::Underline);
        push_flag(&mut ops, self, DIMMED, StyleOp::Dimmed);
        push_flag(&mut ops, self, ITALIC, StyleOp::Italic);
        push_flag(&mut ops, self, STRIKETHROUGH, StyleOp::Strikethrough);
        push_flag(&mut ops, self, REVERSED, StyleOp::Reversed);
        assert(ops@ =~= text_style_ops(self.bits));
        ops
    }
}

impl TextColor {
    /// The steps that color text with these colors.
    pub fn ops(&self) -> (r: Vec<StyleOp>)
        ensures
            r@ == text_color_ops(*self),
    {
        let mut ops: Vec<StyleOp> = Vec::new();
        match self.fg {
            Some(fg) => ops.push(StyleOp::Fg(fg)),
            None => {},
        }
        match self.bg {
            Some(bg) => ops.push(StyleOp::Bg(bg)),
            None => {},
        }
        assert(ops@ =~= text_color_ops(*self));
        ops
    }
}

impl OutputStyle {
    /// The steps that style text in this style: its colors, then its flags.
    pub fn ops(&self) -> (r: Vec<StyleOp>)
        ensures
            r@ == text_color_ops(self.color) + text_style_ops(self.style.bits),
    {
        let mut ops = self.color.ops();
        let rest = self.style.ops();
        let mut i: usize = 0;
        let ghost start = ops@;
        while i < rest.len()
            invariant
                i <= rest@.len(),
                ops@ == start + rest@.take(i as int),
            decreases rest@.len() - i,
        {
            ops.push(rest[i]);
            assert(rest@.take(i + 1) =~= rest@.take(i as int).push(rest@[i as int]));
            i = i + 1;
        }
        assert(rest@.take(rest@.len() as int) =~= rest@);
        ops
    }
}

impl Default for OutputStyle {
    fn default() -> (r: OutputStyle)
        ensures
            r == plain(),
    {
        OutputStyle::plain()
    }
}

/// A style with the given flags and foreground color.
pub open spec fn styled(bits: u32, fg: Option<Color>) -> OutputStyle {
    OutputStyle { style: TextStyle { bits }, color: TextColor { fg, bg: None } }
}

/// The number of spaces in one level of indentation.
pub const INDENT_LEN: u32 = 4u32;
/// Written before the reason given with `why`.
pub const WHY_SYMBOL: &'static str = "[why]";
/// Written for a field or element that matched.
pub const OK_MSG: &'static str = "OK";
/// Written for a field or element that did not match.
pub const FAILED_MSG: &'static str = "FAILED";
/// Header for a list of matchers that should all succeed.
pub const ALL_OK_HEADER: &'static str = "Expected all of these to succeed:";
/// Header for a list of matchers of which one should succeed.
pub const AT_LESAT_ONE_OK_HEADER: &'static str = "Expected at least one of these to succeed:";
/// Header for a list of fields that should all succeed.
pub const ALL_FIELDS_OK_HEADER: &'static str = "Expected all of these fields to succeed:";
/// Header for a list of fields of which one should succeed.
pub const AT_LESAT_ONE_FIELD_OK_HEADER: &'static str = "Expected at least one of these fields to succeed:";
/// Message for a chain of matchers that should have failed.
pub const AT_LESAT_ONE_NOT_OK_MSG: &'static str = "Expected at least one of these to fail.";

/// The number of spaces of `levels` levels of indentation.
pub fn indent_len(levels: u32) -> (r: u32)
    requires
        INDENT_LEN * levels <= u32::MAX,
    ensures
        r == INDENT_LEN * levels,
{
    INDENT_LEN * levels
}

/// The white space of `levels` levels of indentation.
pub fn indent(levels: u32) -> (r: String)
    requires
        INDENT_LEN * levels <= u32::MAX,
    ensures
        r@ == crate::text::spaces((INDENT_LEN * levels) as nat),
{
    crate::strings::whitespace(indent_len(levels) as usize)
}

/// Bold text: used for the important parts of a message.
pub fn important() -> (r: OutputStyle)
    ensures
        r == styled(BOLD, None),
{
    OutputStyle { style: TextStyle { bits: BOLD }, color: TextColor { fg: None, bg: None } }
}

/// Cyan text: used for context such as the expression under test.
pub fn info() -> (r: OutputStyle)
    ensures
        r == styled(0, Some(Color::Cyan)),
{
    OutputStyle { style: TextStyle { bits: 0 }, color: TextColor { fg: Some(Color::Cyan), bg: None } }
}

/// Bold red text: used for values that did not match.
pub fn bad() -> (r: OutputStyle)
    ensures
        r == styled(BOLD, Some(Color::Red)),
{
    OutputStyle { style: TextStyle { bits: BOLD }, color: TextColor { fg: Some(Color::Red), bg: None } }
}

/// Bold underlined red text: used for the word "FAILED".
pub fn failure() -> (r: OutputStyle)
    ensures
        r == styled(BOLD | UNDERLINE, Some(Color::Red)),
{
    OutputStyle {
        style: TextStyle { bits: BOLD | UNDERLINE },
        color: TextColor { fg: Some(Color::Red), bg: None },
    }
}

/// Bold green text.
pub fn good() -> (r: OutputStyle)
    ensures
        r == styled(BOLD, Some(Color::Green)),
{
    OutputStyle { style: TextStyle { bits: BOLD }, color: TextColor { fg: Some(Color::Green), bg: None } }
}

/// Bold underlined green text: used for the word "OK".
pub fn success() -> (r: OutputStyle)
    ensures
        r == styled(BOLD | UNDERLINE, Some(Color::Green)),
{
    OutputStyle {
        style: TextStyle { bits: BOLD | UNDERLINE },
        color: TextColor { fg: Some(Color::Green), bg: None },
    }
}

/// Yellow text: used for indices into lists.
pub fn index() -> (r: OutputStyle)
    ensures
        r == styled(0, Some(Color::Yellow)),
{
    OutputStyle { style: TextStyle { bits: 0 }, color: TextColor { fg: Some(Color::Yellow), bg: None } }
}

} // verus!
