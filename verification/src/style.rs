//! Text styles and their canonical ANSI escape form.

use crate::error::TerminalError;
use crate::text::{
    chars_of, decimal_digits, find_either, index_of_either, is_digit,
    lemma_decimal_digits_value, parse_unsigned, push_decimal, unsigned_decimal, unsigned_digits,
};
use vstd::prelude::*;

verus! {

/// A color, as red, green and blue components.
#[derive(Debug, Clone, Copy, PartialEq, Eq, Structural, PartialOrd, Ord, Hash)]
pub struct TerminalColor {
    /// Red component.
    pub r: u8,
    /// Green component.
    pub g: u8,
    /// Blue component.
    pub b: u8,
}

impl TerminalColor {
    /// Makes a color from its three components.
    pub fn new(r: u8, g: u8, b: u8) -> (color: Self)
        ensures
            color == (TerminalColor { r, g, b }),
    {
        Self { r, g, b }
    }

    /// ANSI black, as the color (0, 0, 0).
    pub fn black() -> (color: Self)
        ensures
            color == (TerminalColor { r: 0, g: 0, b: 0 }),
    {
        Self { r: 0, g: 0, b: 0 }
    }

    /// ANSI red, as the color (255, 0, 0).
    pub fn red() -> (color: Self)
        ensures
            color == (TerminalColor { r: 255, g: 0, b: 0 }),
    {
        Self { r: 255, g: 0, b: 0 }
    }

    /// ANSI green, as the color (0, 255, 0).
    pub fn green() -> (color: Self)
        ensures
            color == (TerminalColor { r: 0, g: 255, b: 0 }),
    {
        Self { r: 0, g: 255, b: 0 }
    }

    /// ANSI yellow, as the color (255, 255, 0).
    pub fn yellow() -> (color: Self)
        ensures
            color == (TerminalColor { r: 255, g: 255, b: 0 }),
    {
        Self { r: 255, g: 255, b: 0 }
    }

    /// ANSI blue, as the color (0, 0, 255).
    pub fn blue() -> (color: Self)
        ensures
            color == (TerminalColor { r: 0, g: 0, b: 255 }),
    {
        Self { r: 0, g: 0, b: 255 }
    }

    /// ANSI magenta, as the color (255, 0, 255).
    pub fn magenta() -> (color: Self)
        ensures
            color == (TerminalColor { r: 255, g: 0, b: 255 }),
    {
        Self { r: 255, g: 0, b: 255 }
    }

    /// ANSI cyan, as the color (0, 255, 255).
    pub fn cyan() -> (color: Self)
        ensures
            color == (TerminalColor { r: 0, g: 255, b: 255 }),
    {
        Self { r: 0, g: 255, b: 255 }
    }

    /// ANSI white, as the color (255, 255, 255).
    pub fn white() -> (color: Self)
        ensures
            color == (TerminalColor { r: 255, g: 255, b: 255 }),
    {
        Self { r: 255, g: 255, b: 255 }
    }

    /// ANSI bright black, a gray, as the color (128, 128, 128).
    pub fn bright_black() -> (color: Self)
        ensures
            color == (TerminalColor { r: 128, g: 128, b: 128 }),
    {
        Self { r: 128, g: 128, b: 128 }
    }

    /// ANSI bright red, as the color (255, 100, 100).
    pub fn bright_red() -> (color: Self)
        ensures
            color == (TerminalColor { r: 255, g: 100, b: 100 }),
    {
        Self { r: 255, g: 100, b: 100 }
    }

    /// ANSI bright green, as the color (100, 255, 100).
    pub fn bright_green() -> (color: Self)
        ensures
            color == (TerminalColor { r: 100, g: 255, b: 100 }),
    {
        Self { r: 100, g: 255, b: 100 }
    }

    /// ANSI bright yellow, as the color (255, 255, 100).
    pub fn bright_yellow() -> (color: Self)
        ensures
            color == (TerminalColor { r: 255, g: 255, b: 100 }),
    {
        Self { r: 255, g: 255, b: 100 }
    }

    /// ANSI bright blue, as the color (100, 100, 255).
    pub fn bright_blue() -> (color: Self)
        ensures
            color == (TerminalColor { r: 100, g: 100, b: 255 }),
    {
        Self { r: 100, g: 100, b: 255 }
    }

    /// ANSI bright magenta, as the color (255, 100, 255).
    pub fn bright_magenta() -> (color: Self)
        ensures
            color == (TerminalColor { r: 255, g: 100, b: 255 }),
    {
        Self { r: 255, g: 100, b: 255 }
    }

    /// ANSI bright cyan, as the color (100, 255, 255).
    pub fn bright_cyan() -> (color: Self)
        ensures
            color == (TerminalColor { r: 100, g: 255, b: 255 }),
    {
        Self { r: 100, g: 255, b: 255 }
    }

    /// ANSI bright white, as the color (255, 255, 255).
    pub fn bright_white() -> (color: Self)
        ensures
            color == (TerminalColor { r: 255, g: 255, b: 255 }),
    {
        Self { r: 255, g: 255, b: 255 }
    }
}

/// The attributes with which text is shown: seven switches and two optional colors.
#[derive(Debug, Default, Clone, Copy, PartialEq, Eq, Structural, PartialOrd, Ord, Hash)]
pub struct TerminalStyle {
    /// Bold text.
    pub bold: bool,
    /// Italic text.
    pub italic: bool,
    /// Underlined text.
    pub underline: bool,
    /// Blinking text.
    pub blink: bool,
    /// Foreground and background swapped.
    pub reverse: bool,
    /// Text of reduced intensity.
    pub dim: bool,
    /// Text with a line through it.
    pub strikethrough: bool,
    /// The color of the text, if one is set.
    pub fg_color: Option<TerminalColor>,
    /// The color behind the text, if one is set.
    pub bg_color: Option<TerminalColor>,
}

impl TerminalStyle {
    /// The style with every switch off and no color.
    pub open spec fn spec_new() -> Self {
        TerminalStyle {
            bold: false,
            italic: false,
            underline: false,
            blink: false,
            reverse: false,
            dim: false,
            strikethrough: false,
            fg_color: None,
            bg_color: None,
        }
    }

    /// Makes the style with every switch off and no color.
    #[verifier::when_used_as_spec(spec_new)]
    pub fn new() -> (style: Self)
        ensures
            style == Self::spec_new(),
    {
        TerminalStyle {
            bold: false,
            italic: false,
            underline: false,
            blink: false,
            reverse: false,
            dim: false,
            strikethrough: false,
            fg_color: None,
            bg_color: None,
        }
    }

    /// The style that resets all styling: the same value as `new`.
    pub fn reset() -> (style: Self)
        ensures
            style == Self::spec_new(),
    {
        Self::new()
    }

    /// This style with bold switched on.
    pub fn bold(self) -> (style: Self)
        ensures
            style == (TerminalStyle { bold: true, ..self }),
    {
        TerminalStyle { bold: true, ..self }
    }

    /// This style with italic switched on.
    pub fn italic(self) -> (style: Self)
        ensures
            style == (TerminalStyle { italic: true, ..self }),
    {
        TerminalStyle { italic: true, ..self }
    }

    /// This style with underline switched on.
    pub fn underline(self) -> (style: Self)
        ensures
            style == (TerminalStyle { underline: true, ..self }),
    {
        TerminalStyle { underline: true, ..self }
    }

    /// This style with blink switched on.
    pub fn blink(self) -> (style: Self)
        ensures
            style == (TerminalStyle { blink: true, ..self }),
    {
        TerminalStyle { blink: true, ..self }
    }

    /// This style with reverse switched on.
    pub fn reverse(self) -> (style: Self)
        ensures
            style == (TerminalStyle { reverse: true, ..self }),
    {
        TerminalStyle { reverse: true, ..self }
    }

    /// This style with dim switched on.
    pub fn dim(self) -> (style: Self)
        ensures
            style == (TerminalStyle { dim: true, ..self }),
    {
        TerminalStyle { dim: true, ..self }
    }

    /// This style with strikethrough switched on.
    pub fn strikethrough(self) -> (style: Self)
        ensures
            style == (TerminalStyle { strikethrough: true, ..self }),
    {
        TerminalStyle { strikethrough: true, ..self }
    }

    /// This style with the given text color.
    pub fn fg_color(self, color: TerminalColor) -> (style: Self)
        ensures
            style == (TerminalStyle { fg_color: Some(color), ..self }),
    {
        TerminalStyle { fg_color: Some(color), ..self }
    }

    /// This style with the given background color.
    pub fn bg_color(self, color: TerminalColor) -> (style: Self)
        ensures
            style == (TerminalStyle { bg_color: Some(color), ..self }),
    {
        TerminalStyle { bg_color: Some(color), ..self }
    }
}

/// The text of one switch in an escape sequence: `;` and its digit where the switch is on.
pub open spec fn flag_text(on: bool, digit: char) -> Seq<char> {
    if on {
        seq![';', digit]
    } else {
        Seq::<char>::empty()
    }
}

/// The text of a color in an escape sequence: `;38;2;r;g;b` for a text color
/// (selector `3`), `;48;2;r;g;b` for a background (selector `4`), nothing for no color.
pub open spec fn color_text(color: Option<TerminalColor>, selector: char) -> Seq<char> {
    match color {
        Some(c) => seq![';', selector, '8', ';', '2', ';'] + decimal_digits(c.r as nat) + seq![
            ';',
        ] + decimal_digits(c.g as nat) + seq![';'] + decimal_digits(c.b as nat),
        None => Seq::<char>::empty(),
    }
}

/// Whether `s` holds, at index `at`, the switch with the given digit: `;`,
/// the digit, and then `;` or `m`.
pub open spec fn flag_at(s: Seq<char>, at: int, digit: char) -> bool {
    &&& 0 <= at
    &&& at + 2 < s.len()
    &&& s[at] == ';'
    &&& s[at + 1] == digit
    &&& (s[at + 2] == ';' || s[at + 2] == 'm')
}

/// The index behind the switch at `at`, or `at` itself where that switch is not there.
pub open spec fn after_flag(s: Seq<char>, at: int, digit: char) -> int {
    if flag_at(s, at, digit) {
        at + 2
    } else {
        at
    }
}

/// Whether `s` holds, at index `at`, the start of a color: `;38;2;` or `;48;2;`.
pub open spec fn color_starts_at(s: Seq<char>, at: int, selector: char) -> bool {
    &&& 0 <= at
    &&& at + 6 <= s.len()
    &&& s[at] == ';'
    &&& s[at + 1] == selector
    &&& s[at + 2] == '8'
    &&& s[at + 3] == ';'
    &&& s[at + 4] == '2'
    &&& s[at + 5] == ';'
}

/// The color that `s` holds at index `at`, and the index of the delimiter
/// behind it. No color and `at` where no color starts there; nothing at all
/// where one starts and is not three numbers of at most 255, the first two
/// ended by `;` and the third by `;` or `m`.
pub open spec fn color_at(s: Seq<char>, at: int, selector: char) -> Option<
    (Option<TerminalColor>, int),
> {
    if color_starts_at(s, at, selector) {
        let red_end = index_of_either(s, at + 6, ';', ';');
        let green_end = index_of_either(s, red_end + 1, ';', ';');
        let blue_end = index_of_either(s, green_end + 1, ';', 'm');
        if red_end < s.len() && green_end < s.len() && blue_end < s.len() {
            match (
                unsigned_decimal(s.subrange(at + 6, red_end), 255),
                unsigned_decimal(s.subrange(red_end + 1, green_end), 255),
                unsigned_decimal(s.subrange(green_end + 1, blue_end), 255),
            ) {
                (Some(r), Some(g), Some(b)) => Some(
                    (Some(TerminalColor { r: r as u8, g: g as u8, b: b as u8 }), blue_end),
                ),
                _ => None,
            }
        } else {
            None
        }
    } else {
        Some((None, at))
    }
}

/// The style that an escape sequence stands for: `ESC [ 0`, then the switches
/// that are on, in the order bold `;1`, dim `;2`, italic `;3`, underline
/// `;4`, blink `;5`, reverse `;7`, strikethrough `;9`, then the text color,
/// then the background, then `m`. Any other text stands for no style.
pub open spec fn parse_style(s: Seq<char>) -> Option<TerminalStyle> {
    if s.len() >= 3 && s[0] == '\x1b' && s[1] == '[' && s[2] == '0' {
        let at_dim = after_flag(s, 3, '1');
        let at_italic = after_flag(s, at_dim, '2');
        let at_underline = after_flag(s, at_italic, '3');
        let at_blink = after_flag(s, at_underline, '4');
        let at_reverse = after_flag(s, at_blink, '5');
        let at_strikethrough = after_flag(s, at_reverse, '7');
        let at_fg = after_flag(s, at_strikethrough, '9');
        match color_at(s, at_fg, '3') {
            Some((fg_color, at_bg)) => match color_at(s, at_bg, '4') {
                Some((bg_color, end)) => if end + 1 == s.len() && s[end] == 'm' {
                    Some(
                        TerminalStyle {
                            bold: flag_at(s, 3, '1'),
                            dim: flag_at(s, at_dim, '2'),
                            italic: flag_at(s, at_italic, '3'),
                            underline: flag_at(s, at_underline, '4'),
                            blink: flag_at(s, at_blink, '5'),
                            reverse: flag_at(s, at_reverse, '7'),
                            strikethrough: flag_at(s, at_strikethrough, '9'),
                            fg_color,
                            bg_color,
                        },
                    )
                } else {
                    None
                },
                None => None,
            },
            None => None,
        }
    } else {
        None
    }
}

impl TerminalStyle {
    /// The canonical escape sequence of the style. It starts with `ESC [ 0`,
    /// which resets what was set before, names the switches that are on in
    /// the order 1, 2, 3, 4, 5, 7, 9, then the colors, and ends with `m`.
    pub open spec fn escape_sequence(self) -> Seq<char> {
        seq!['\x1b', '[', '0'] + flag_text(self.bold, '1') + flag_text(self.dim, '2') + flag_text(
            self.italic,
            '3',
        ) + flag_text(self.underline, '4') + flag_text(self.blink, '5') + flag_text(
            self.reverse,
            '7',
        ) + flag_text(self.strikethrough, '9') + color_text(self.fg_color, '3') + color_text(
            self.bg_color,
            '4',
        ) + seq!['m']
    }

    /// Appends the canonical escape sequence of the style to `out`.
    pub fn write_to(&self, out: &mut String)
        ensures
            final(out)@ == old(out)@ + self.escape_sequence(),
    {
        let ghost start = out@;
        let ghost head = seq!['\x1b', '[', '0'];
        push_head(out);
        push_flag(out, self.bold, '1', Ghost(start), Ghost(head));
        let ghost written = head + flag_text(self.bold, '1');
        push_flag(out, self.dim, '2', Ghost(start), Ghost(written));
        let ghost written = written + flag_text(self.dim, '2');
        push_flag(out, self.italic, '3', Ghost(start), Ghost(written));
        let ghost written = written + flag_text(self.italic, '3');
        push_flag(out, self.underline, '4', Ghost(start), Ghost(written));
        let ghost written = written + flag_text(self.underline, '4');
        push_flag(out, self.blink, '5', Ghost(start), Ghost(written));
        let ghost written = written + flag_text(self.blink, '5');
        push_flag(out, self.reverse, '7', Ghost(start), Ghost(written));
        let ghost written = written + flag_text(self.reverse, '7');
        push_flag(out, self.strikethrough, '9', Ghost(start), Ghost(written));
        let ghost written = written + flag_text(self.strikethrough, '9');
        push_color(out, self.fg_color, '3', Ghost(start), Ghost(written));
        let ghost written = written + color_text(self.fg_color, '3');
        push_color(out, self.bg_color, '4', Ghost(start), Ghost(written));
        let ghost written = written + color_text(self.bg_color, '4');
        push_end(out, Ghost(start), Ghost(written));
    }

    /// The canonical escape sequence of the style, as a string.
    pub fn to_string(&self) -> (text: String)
        ensures
            text@ == self.escape_sequence(),
    {
        let mut text = String::new();
        self.write_to(&mut text);
        assert(text@ =~= self.escape_sequence());
        text
    }

    /// Reads an escape sequence, given as characters, back into the style it stands for.
    pub fn parse_chars(text: &[char]) -> (style: Option<TerminalStyle>)
        ensures
            style == parse_style(text@),
    {
        if !(text.len() >= 3 && text[0] == '\x1b' && text[1] == '[' && text[2] == '0') {
            return None;
        }
        let (bold, at) = take_flag(text, 3, '1');
        let (dim, at) = take_flag(text, at, '2');
        let (italic, at) = take_flag(text, at, '3');
        let (underline, at) = take_flag(text, at, '4');
        let (blink, at) = take_flag(text, at, '5');
        let (reverse, at) = take_flag(text, at, '7');
        let (strikethrough, at) = take_flag(text, at, '9');
        let (fg_color, at) = match take_color(text, at, '3') {
            Some(found) => found,
            None => { return None; },
        };
        let (bg_color, at) = match take_color(text, at, '4') {
            Some(found) => found,
            None => { return None; },
        };
        if at < text.len() && at + 1 == text.len() && text[at] == 'm' {
            Some(
                TerminalStyle {
                    bold,
                    italic,
                    underline,
                    blink,
                    reverse,
                    dim,
                    strikethrough,
                    fg_color,
                    bg_color,
                },
            )
        } else {
            None
        }
    }

    /// Reads the canonical escape sequence of a style back into the style.
    /// Text that is no such sequence is an error.
    pub fn parse(s: &str) -> (result: Result<TerminalStyle, TerminalError>)
        ensures
            result == match parse_style(s@) {
                Some(style) => Ok::<TerminalStyle, TerminalError>(style),
                None => Err::<TerminalStyle, TerminalError>(TerminalError::InvalidStyleEscape),
            },
    {
        let text = chars_of(s);
        match Self::parse_chars(text.as_slice()) {
            Some(style) => Ok(style),
            None => Err(TerminalError::InvalidStyleEscape),
        }
    }
}

impl core::str::FromStr for TerminalStyle {
    type Err = TerminalError;

    /// Reads the canonical escape sequence of a style, as `TerminalStyle::parse` does.
    fn from_str(s: &str) -> (result: Result<Self, Self::Err>)
        ensures
            result == match parse_style(s@) {
                Some(style) => Ok::<TerminalStyle, TerminalError>(style),
                None => Err::<TerminalStyle, TerminalError>(TerminalError::InvalidStyleEscape),
            },
    {
        TerminalStyle::parse(s)
    }
}

/// Appends the start of every escape sequence of a style.
fn push_head(out: &mut String)
    ensures
        final(out)@ == old(out)@ + seq!['\x1b', '[', '0'],
{
    out.push('\x1b');
    out.push('[');
    out.push('0');
    assert(out@ =~= old(out)@ + seq!['\x1b', '[', '0']);
}

/// Appends the text of one switch behind what was written of a sequence.
fn push_flag(
    out: &mut String,
    on: bool,
    digit: char,
    Ghost(start): Ghost<Seq<char>>,
    Ghost(written): Ghost<Seq<char>>,
)
    requires
        old(out)@ == start + written,
    ensures
        final(out)@ == start + (written + flag_text(on, digit)),
{
    if on {
        out.push(';');
        out.push(digit);
    }
    assert(out@ =~= start + (written + flag_text(on, digit)));
}

/// Appends the text of one color behind what was written of a sequence.
fn push_color(
    out: &mut String,
    color: Option<TerminalColor>,
    selector: char,
    Ghost(start): Ghost<Seq<char>>,
    Ghost(written): Ghost<Seq<char>>,
)
    requires
        old(out)@ == start + written,
    ensures
        final(out)@ == start + (written + color_text(color, selector)),
{
    match color {
        Some(c) => {
            out.push(';');
            out.push(selector);
            out.push('8');
            out.push(';');
            out.push('2');
            out.push(';');
            assert(out@ =~= old(out)@ + seq![';', selector, '8', ';', '2', ';']);
            push_decimal(out, c.r as u128);
            out.push(';');
            push_decimal(out, c.g as u128);
            out.push(';');
            push_decimal(out, c.b as u128);
        },
        None => {},
    }
    assert(out@ =~= start + (written + color_text(color, selector)));
}

/// Appends the `m` that ends an escape sequence of a style.
fn push_end(out: &mut String, Ghost(start): Ghost<Seq<char>>, Ghost(written): Ghost<Seq<char>>)
    requires
        old(out)@ == start + written,
    ensures
        final(out)@ == start + (written + seq!['m']),
{
    out.push('m');
    assert(out@ =~= start + (written + seq!['m']));
}

/// Looks for the switch with the given digit at index `at`.
fn take_flag(text: &[char], at: usize, digit: char) -> (found: (bool, usize))
    requires
        at <= text@.len(),
    ensures
        found.0 == flag_at(text@, at as int, digit),
        found.1 == after_flag(text@, at as int, digit),
        found.1 <= text@.len(),
{
    if text.len() - at > 2 && text[at] == ';' && text[at + 1] == digit && (text[at + 2] == ';'
        || text[at + 2] == 'm') {
        (true, at + 2)
    } else {
        (false, at)
    }
}

/// Looks for a color at index `at`.
fn take_color(text: &[char], at: usize, selector: char) -> (found: Option<
    (Option<TerminalColor>, usize),
>)
    requires
        at <= text@.len(),
    ensures
        found.is_some() == color_at(text@, at as int, selector).is_some(),
        found matches Some((color, end)) ==> color_at(text@, at as int, selector) == Some(
            (color, end as int),
        ) && end <= text@.len(),
{
    if !(text.len() - at >= 6 && text[at] == ';' && text[at + 1] == selector && text[at + 2] == '8'
        && text[at + 3] == ';' && text[at + 4] == '2' && text[at + 5] == ';') {
        return Some((None, at));
    }
    let red_end = find_either(text, at + 6, ';', ';');
    if red_end >= text.len() {
        return None;
    }
    let green_end = find_either(text, red_end + 1, ';', ';');
    if green_end >= text.len() {
        return None;
    }
    let blue_end = find_either(text, green_end + 1, ';', 'm');
    if blue_end >= text.len() {
        return None;
    }
    let red = parse_unsigned(text, at + 6, red_end, 255);
    let green = parse_unsigned(text, red_end + 1, green_end, 255);
    let blue = parse_unsigned(text, green_end + 1, blue_end, 255);
    match (red, green, blue) {
        (Some(r), Some(g), Some(b)) => Some(
            (Some(TerminalColor { r: r as u8, g: g as u8, b: b as u8 }), blue_end),
        ),
        _ => None,
    }
}

/// Sequences are joined the same way from the left as from the right.
proof fn lemma_concat_assoc(a: Seq<char>, b: Seq<char>, c: Seq<char>)
    ensures
        (a + b) + c == a + (b + c),
{
    assert((a + b) + c =~= a + (b + c));
}

/// Whether `rest` can stand behind the switch with the given digit in an
/// escape sequence: it is the final `m`, or starts with a switch of a higher
/// digit, or starts with a color.
pub open spec fn follows_flag(rest: Seq<char>, digit: char) -> bool {
    &&& rest.len() >= 1
    &&& (rest[0] == 'm' || (rest.len() >= 3 && rest[0] == ';' && (rest[1] as u32 > digit as u32
        || rest[2] == '8')))
}

/// A switch that was written is read back, and one that was left out is not read.
proof fn lemma_flag_read_back(pre: Seq<char>, on: bool, digit: char, rest: Seq<char>)
    requires
        follows_flag(rest, digit),
    ensures
        flag_at(pre + (flag_text(on, digit) + rest), pre.len() as int, digit) == on,
        after_flag(pre + (flag_text(on, digit) + rest), pre.len() as int, digit) == pre.len()
            + flag_text(on, digit).len(),
{
    let s = pre + (flag_text(on, digit) + rest);
    let at = pre.len() as int;
    assert(s[at] == (flag_text(on, digit) + rest)[0]);
    if s.len() > at + 2 {
        assert(s[at + 1] == (flag_text(on, digit) + rest)[1]);
        assert(s[at + 2] == (flag_text(on, digit) + rest)[2]);
    }
}

/// What stands behind a switch may stand behind every switch of a lower
/// digit, with the switch in front of it or without.
proof fn lemma_follows_lower_flag(on: bool, digit: char, rest: Seq<char>, lower: char)
    requires
        follows_flag(rest, digit),
        (lower as u32) < digit as u32,
    ensures
        follows_flag(flag_text(on, digit) + rest, lower),
{
    let s = flag_text(on, digit) + rest;
    if on {
        assert(s[0] == ';' && s[1] == digit);
    } else {
        assert(s =~= rest);
    }
}

/// A color, or the `m` behind the colors, may stand behind every switch.
proof fn lemma_color_follows_flag(
    color: Option<TerminalColor>,
    selector: char,
    rest: Seq<char>,
    digit: char,
)
    requires
        follows_flag(rest, digit),
    ensures
        follows_flag(color_text(color, selector) + rest, digit),
        color.is_some() ==> (color_text(color, selector) + rest)[1] == selector,
{
    let s = color_text(color, selector) + rest;
    match color {
        Some(c) => {
            let head = seq![';', selector, '8', ';', '2', ';'];
            assert(color_text(color, selector).len() >= 6);
            assert(color_text(color, selector)[0] == head[0]);
            assert(color_text(color, selector)[1] == head[1]);
            assert(color_text(color, selector)[2] == head[2]);
            assert(s[0] == ';' && s[1] == selector && s[2] == '8');
        },
        None => {
            assert(s =~= rest);
        },
    }
}

/// The search for a delimiter passes over a run of digits and stops at the
/// delimiter behind it.
proof fn lemma_find_behind_digits(s: Seq<char>, from: int, len: int, a: char, b: char)
    requires
        0 <= from,
        0 <= len,
        from + len < s.len(),
        forall|i: int| from <= i < from + len ==> is_digit(#[trigger] s[i]),
        s[from + len] == a || s[from + len] == b,
        !is_digit(a),
        !is_digit(b),
    ensures
        index_of_either(s, from, a, b) == from + len,
    decreases len,
{
    if len > 0 {
        assert(is_digit(s[from]));
        lemma_find_behind_digits(s, from + 1, len - 1, a, b);
    }
}

/// The digits of a number of at most 255 are read back as that number.
proof fn lemma_component_read_back(n: u8)
    ensures
        unsigned_decimal(decimal_digits(n as nat), 255) == Some(n as nat),
{
    lemma_decimal_digits_value(n as nat);
    let digits = decimal_digits(n as nat);
    assert(is_digit(digits[0]));
    assert(unsigned_digits(digits) == digits);
}

/// A color that was written is read back, and where none was written none is read.
proof fn lemma_color_read_back(
    pre: Seq<char>,
    color: Option<TerminalColor>,
    selector: char,
    rest: Seq<char>,
)
    requires
        rest.len() >= 1,
        rest[0] == ';' || rest[0] == 'm',
        color.is_none() ==> !color_starts_at(rest, 0, selector),
    ensures
        color_at(pre + (color_text(color, selector) + rest), pre.len() as int, selector) == Some(
            (color, (pre.len() + color_text(color, selector).len()) as int),
        ),
{
    let text = color_text(color, selector);
    let s = pre + (text + rest);
    let at = pre.len() as int;
    match color {
        Some(c) => {
            let head = seq![';', selector, '8', ';', '2', ';'];
            let red = decimal_digits(c.r as nat);
            let green = decimal_digits(c.g as nat);
            let blue = decimal_digits(c.b as nat);
            lemma_decimal_digits_value(c.r as nat);
            lemma_decimal_digits_value(c.g as nat);
            lemma_decimal_digits_value(c.b as nat);
            lemma_component_read_back(c.r);
            lemma_component_read_back(c.g);
            lemma_component_read_back(c.b);
            let red_at = at + 6;
            let red_end = red_at + red.len();
            let green_at = red_end + 1;
            let green_end = green_at + green.len();
            let blue_at = green_end + 1;
            let blue_end = blue_at + blue.len();
            assert(text == head + red + seq![';'] + green + seq![';'] + blue);
            assert(text.len() == 6 + red.len() + 1 + green.len() + 1 + blue.len());
            assert forall|i: int| 0 <= i < 6 implies s[at + i] == head[i] by {
                assert(s[at + i] == text[i]);
            }
            assert(color_starts_at(s, at, selector));
            assert forall|i: int| red_at <= i < red_end implies is_digit(#[trigger] s[i]) by {
                assert(s[i] == text[i - at]);
                assert(text[i - at] == red[i - red_at]);
            }
            assert(s[red_end] == ';') by {
                assert(s[red_end] == text[red_end - at]);
            }
            lemma_find_behind_digits(s, red_at, red.len() as int, ';', ';');
            assert forall|i: int| green_at <= i < green_end implies is_digit(#[trigger] s[i]) by {
                assert(s[i] == text[i - at]);
                assert(text[i - at] == green[i - green_at]);
            }
            assert(s[green_end] == ';') by {
                assert(s[green_end] == text[green_end - at]);
            }
            lemma_find_behind_digits(s, green_at, green.len() as int, ';', ';');
            assert forall|i: int| blue_at <= i < blue_end implies is_digit(#[trigger] s[i]) by {
                assert(s[i] == text[i - at]);
                assert(text[i - at] == blue[i - blue_at]);
            }
            assert(s[blue_end] == rest[0]) by {
                assert(s[blue_end] == (text + rest)[blue_end - at]);
            }
            lemma_find_behind_digits(s, blue_at, blue.len() as int, ';', 'm');
            assert(s.subrange(red_at, red_end) =~= red) by {
                assert forall|i: int| 0 <= i < red.len() implies s.subrange(red_at, red_end)[i]
                    == red[i] by {
                    assert(s[red_at + i] == text[red_at + i - at]);
                }
            }
            assert(s.subrange(green_at, green_end) =~= green) by {
                assert forall|i: int| 0 <= i < green.len() implies s.subrange(
                    green_at,
                    green_end,
                )[i] == green[i] by {
                    assert(s[green_at + i] == text[green_at + i - at]);
                }
            }
            assert(s.subrange(blue_at, blue_end) =~= blue) by {
                assert forall|i: int| 0 <= i < blue.len() implies s.subrange(blue_at, blue_end)[i]
                    == blue[i] by {
                    assert(s[blue_at + i] == text[blue_at + i - at]);
                }
            }
        },
        None => {
            assert(s =~= pre + rest);
            if at + 6 <= s.len() {
                assert forall|i: int| 0 <= i < 6 implies s[at + i] == rest[i] by {}
            }
        },
    }
}

/// The pieces that the escape sequence of a style is made of behind its
/// start, by number: the seven switches, the two colors, and the final `m`.
pub open spec fn piece(style: TerminalStyle, k: int) -> Seq<char> {
    if k <= 7 {
        flag_text(flag_on(style, k), flag_digit(k))
    } else if k == 8 {
        color_text(style.fg_color, '3')
    } else if k == 9 {
        color_text(style.bg_color, '4')
    } else {
        seq!['m']
    }
}

/// The digit of the switch with the given number.
pub open spec fn flag_digit(k: int) -> char {
    if k <= 1 {
        '1'
    } else if k == 2 {
        '2'
    } else if k == 3 {
        '3'
    } else if k == 4 {
        '4'
    } else if k == 5 {
        '5'
    } else if k == 6 {
        '7'
    } else {
        '9'
    }
}

/// Whether the switch with the given number is on in `style`.
pub open spec fn flag_on(style: TerminalStyle, k: int) -> bool {
    if k <= 1 {
        style.bold
    } else if k == 2 {
        style.dim
    } else if k == 3 {
        style.italic
    } else if k == 4 {
        style.underline
    } else if k == 5 {
        style.blink
    } else if k == 6 {
        style.reverse
    } else {
        style.strikethrough
    }
}

/// What the escape sequence of a style holds before its piece `k`.
pub open spec fn before_piece(style: TerminalStyle, k: int) -> Seq<char>
    decreases k,
{
    if k <= 1 {
        seq!['\x1b', '[', '0']
    } else {
        before_piece(style, k - 1) + piece(style, k - 1)
    }
}

/// What the escape sequence of a style holds behind its piece `k`.
pub open spec fn behind_piece(style: TerminalStyle, k: int) -> Seq<char>
    decreases 10 - k,
{
    if k >= 9 {
        seq!['m']
    } else {
        piece(style, k + 1) + behind_piece(style, k + 1)
    }
}

/// The index at which piece `k` of the escape sequence of a style starts.
pub open spec fn piece_start(style: TerminalStyle, k: int) -> int {
    before_piece(style, k).len() as int
}

/// The escape sequence of a style is what stands before a piece, the piece,
/// and what stands behind it.
proof fn lemma_pieces(style: TerminalStyle, k: int)
    requires
        1 <= k <= 9,
    ensures
        style.escape_sequence() == before_piece(style, k) + (piece(style, k) + behind_piece(
            style,
            k,
        )),
    decreases 9 - k,
{
    if k == 9 {
        reveal_with_fuel(before_piece, 10);
        assert(style.escape_sequence() == before_piece(style, 9) + piece(style, 9) + seq!['m']);
        lemma_concat_assoc(before_piece(style, 9), piece(style, 9), seq!['m']);
    } else {
        lemma_pieces(style, k + 1);
        lemma_concat_assoc(before_piece(style, k), piece(style, k), behind_piece(style, k + 1));
    }
}

/// What stands behind a switch in the escape sequence of a style may stand there.
proof fn lemma_behind_follows(style: TerminalStyle, k: int)
    requires
        1 <= k <= 7,
    ensures
        follows_flag(behind_piece(style, k), flag_digit(k)),
    decreases 9 - k,
{
    if k == 7 {
        let end = seq!['m'];
        assert(follows_flag(end, '9'));
        assert(behind_piece(style, 9) == end);
        lemma_color_follows_flag(style.bg_color, '4', end, '9');
        assert(behind_piece(style, 8) == color_text(style.bg_color, '4') + end);
        lemma_color_follows_flag(style.fg_color, '3', behind_piece(style, 8), '9');
    } else {
        lemma_behind_follows(style, k + 1);
        lemma_follows_lower_flag(
            flag_on(style, k + 1),
            flag_digit(k + 1),
            behind_piece(style, k + 1),
            flag_digit(k),
        );
    }
}

/// Every switch of the escape sequence of a style is read back as it was
/// written, and reading goes on at the piece behind it.
proof fn lemma_flag_stage(style: TerminalStyle, k: int)
    requires
        1 <= k <= 7,
    ensures
        flag_at(style.escape_sequence(), piece_start(style, k), flag_digit(k)) == flag_on(
            style,
            k,
        ),
        after_flag(style.escape_sequence(), piece_start(style, k), flag_digit(k)) == piece_start(
            style,
            k + 1,
        ),
{
    lemma_pieces(style, k);
    lemma_behind_follows(style, k);
    lemma_flag_read_back(
        before_piece(style, k),
        flag_on(style, k),
        flag_digit(k),
        behind_piece(style, k),
    );
}

/// Both colors of the escape sequence of a style are read back as they
/// were written, and reading goes on at the piece behind each.
proof fn lemma_color_stage(style: TerminalStyle, k: int)
    requires
        8 <= k <= 9,
    ensures
        k == 8 ==> color_at(style.escape_sequence(), piece_start(style, 8), '3') == Some(
            (style.fg_color, piece_start(style, 9)),
        ),
        k == 9 ==> color_at(style.escape_sequence(), piece_start(style, 9), '4') == Some(
            (style.bg_color, piece_start(style, 10)),
        ),
{
    lemma_pieces(style, k);
    let end = seq!['m'];
    assert(behind_piece(style, 9) == end);
    if k == 8 {
        let rest = behind_piece(style, 8);
        assert(rest == color_text(style.bg_color, '4') + end);
        assert(follows_flag(end, '9'));
        lemma_color_follows_flag(style.bg_color, '4', end, '9');
        if style.bg_color.is_none() {
            assert(rest =~= end);
        }
        lemma_color_read_back(before_piece(style, 8), style.fg_color, '3', rest);
    } else {
        lemma_color_read_back(before_piece(style, 9), style.bg_color, '4', end);
    }
}

/// The escape sequence of a style starts with `ESC [ 0` and ends with `m`.
proof fn lemma_ends(style: TerminalStyle)
    ensures
        style.escape_sequence().len() == piece_start(style, 10) + 1,
        style.escape_sequence()[piece_start(style, 10)] == 'm',
        piece_start(style, 1) == 3,
        style.escape_sequence()[0] == '\x1b',
        style.escape_sequence()[1] == '[',
        style.escape_sequence()[2] == '0',
{
    lemma_pieces(style, 9);
    lemma_pieces(style, 1);
    let head = before_piece(style, 1);
    assert(head[0] == '\x1b' && head[1] == '[' && head[2] == '0');
    lemma_concat_assoc(before_piece(style, 9), piece(style, 9), seq!['m']);
}

/// The law of the round trip: the canonical escape sequence of every style
/// is read back as that style.
pub proof fn lemma_style_round_trip(style: TerminalStyle)
    ensures
        parse_style(style.escape_sequence()) == Some(style),
{
    lemma_ends(style);
    lemma_flag_stage(style, 1);
    lemma_flag_stage(style, 2);
    lemma_flag_stage(style, 3);
    lemma_flag_stage(style, 4);
    lemma_flag_stage(style, 5);
    lemma_flag_stage(style, 6);
    lemma_flag_stage(style, 7);
    lemma_color_stage(style, 8);
    lemma_color_stage(style, 9);
}

} // verus!
