//! Decoding of the bytes that a terminal sends into key and mouse events.
//!
//! `parse` is the grammar, a function from bytes to an optional event and the
//! number of bytes it takes. `parse_input` computes it.

use crate::geometry::TerminalPosition;
use crate::text::{find_either, index_of_either, parse_unsigned, unsigned_decimal};
use vstd::prelude::*;
use vstd::utf8::{
    decode_first_scalar, is_leading_byte_width_2, is_leading_byte_width_3,
    is_leading_byte_width_4, is_scalar, valid_first_scalar,
};

verus! {

/// User input: a key or a mouse event.
#[derive(Debug, Clone, Copy, PartialEq, Eq, Structural, PartialOrd, Ord, Hash)]
pub enum TerminalInput {
    /// Keyboard input.
    Key(KeyInput),
    /// Mouse input.
    Mouse(MouseInput),
}

/// A key press with its modifiers.
#[derive(Debug, Clone, Copy, PartialEq, Eq, Structural, PartialOrd, Ord, Hash)]
pub struct KeyInput {
    /// Whether Ctrl was held.
    pub ctrl: bool,
    /// Whether Alt was held.
    pub alt: bool,
    /// Which key was pressed.
    pub code: KeyCode,
}

/// The key that was pressed.
#[derive(Debug, Clone, Copy, PartialEq, Eq, Structural, PartialOrd, Ord, Hash)]
pub enum KeyCode {
    /// Enter key.
    Enter,
    /// Escape key.
    Escape,
    /// Backspace key.
    Backspace,
    /// Tab key.
    Tab,
    /// Shift+Tab.
    BackTab,
    /// Delete key.
    Delete,
    /// Insert key.
    Insert,
    /// Up arrow key.
    Up,
    /// Down arrow key.
    Down,
    /// Left arrow key.
    Left,
    /// Right arrow key.
    Right,
    /// Home key.
    Home,
    /// End key.
    End,
    /// Page Up key.
    PageUp,
    /// Page Down key.
    PageDown,
    /// A character key.
    Char(char),
}

/// A mouse event with its position and modifiers.
#[derive(Debug, Clone, Copy, PartialEq, Eq, Structural, PartialOrd, Ord, Hash)]
pub struct MouseInput {
    /// What the mouse did.
    pub event: MouseEvent,
    /// Where it did it, counted from zero.
    pub position: TerminalPosition,
    /// Whether Ctrl was held.
    pub ctrl: bool,
    /// Whether Alt was held.
    pub alt: bool,
    /// Whether Shift was held.
    pub shift: bool,
}

/// The kinds of mouse event.
#[derive(Debug, Clone, Copy, PartialEq, Eq, Structural, PartialOrd, Ord, Hash)]
pub enum MouseEvent {
    /// Left button pressed.
    LeftPress,
    /// Left button released.
    LeftRelease,
    /// Right button pressed.
    RightPress,
    /// Right button released.
    RightRelease,
    /// Middle button pressed.
    MiddlePress,
    /// Middle button released.
    MiddleRelease,
    /// Mouse moved while a button is held.
    Drag,
    /// Wheel scrolled up.
    ScrollUp,
    /// Wheel scrolled down.
    ScrollDown,
}

/// `char::from_u32` gives the character with the given code, where the code is
/// a Unicode scalar value, and nothing for any other number.
pub assume_specification[ char::from_u32 ](i: u32) -> (c: Option<char>)
    ensures
        is_scalar(i) ==> c == Some(i as char),
        !is_scalar(i) ==> c.is_none(),
;

/// The escape byte that starts every sequence.
pub const ESC: u8 = 0x1b;

/// The delete byte, which terminals send for Backspace.
pub const DEL: u8 = 0x7f;

/// The event of a key with the given modifiers.
pub open spec fn key(ctrl: bool, alt: bool, code: KeyCode) -> TerminalInput {
    TerminalInput::Key(KeyInput { ctrl, alt, code })
}

/// The key that a control byte below 0x20 stands for, with its Ctrl flag:
/// Enter, Tab, or Ctrl with the letter 0x60 above the byte.
pub open spec fn control_key(byte: u8) -> (bool, KeyCode) {
    if byte == 0x0d {
        (false, KeyCode::Enter)
    } else if byte == 0x09 {
        (false, KeyCode::Tab)
    } else {
        (true, KeyCode::Char(((byte + 0x60) as u8) as char))
    }
}

/// The event of a single ASCII byte other than ESC and DEL.
pub open spec fn parse_ascii(byte: u8) -> (Option<TerminalInput>, int) {
    if byte < 0x20 {
        (Some(key(control_key(byte).0, false, control_key(byte).1)), 1)
    } else {
        (Some(key(false, false, KeyCode::Char(byte as char))), 1)
    }
}

/// The event of ESC followed by the ASCII byte `byte`: that key with Alt.
pub open spec fn parse_alt(byte: u8) -> (Option<TerminalInput>, int) {
    if byte < 0x20 {
        (Some(key(control_key(byte).0, true, control_key(byte).1)), 2)
    } else {
        (Some(key(false, true, KeyCode::Char(byte as char))), 2)
    }
}

/// The key named by the final byte of `ESC O x`: an arrow, Home or End.
pub open spec fn ss3_key(byte: u8) -> Option<KeyCode> {
    if byte == 0x41 {
        Some(KeyCode::Up)
    } else if byte == 0x42 {
        Some(KeyCode::Down)
    } else if byte == 0x43 {
        Some(KeyCode::Right)
    } else if byte == 0x44 {
        Some(KeyCode::Left)
    } else if byte == 0x48 {
        Some(KeyCode::Home)
    } else if byte == 0x46 {
        Some(KeyCode::End)
    } else {
        None
    }
}

/// The key named by the final byte of `ESC [ x`: those of `ss3_key`, and `Z` for BackTab.
pub open spec fn simple_csi_key(byte: u8) -> Option<KeyCode> {
    if byte == 0x5a {
        Some(KeyCode::BackTab)
    } else {
        ss3_key(byte)
    }
}

/// Whether `byte` is one of the letters `A` to `D`, which name the arrows.
pub open spec fn is_arrow(byte: u8) -> bool {
    0x41 <= byte <= 0x44
}

/// The key named by the digit of `ESC [ n ~`.
pub open spec fn special_key(digit: u8) -> Option<KeyCode> {
    if digit == 0x31 || digit == 0x37 {
        Some(KeyCode::Home)
    } else if digit == 0x32 {
        Some(KeyCode::Insert)
    } else if digit == 0x33 {
        Some(KeyCode::Delete)
    } else if digit == 0x34 || digit == 0x38 {
        Some(KeyCode::End)
    } else if digit == 0x35 {
        Some(KeyCode::PageUp)
    } else if digit == 0x36 {
        Some(KeyCode::PageDown)
    } else {
        None
    }
}

/// The number that a modifier byte carries: the byte less the digit zero, modulo 256.
pub open spec fn modifier_value(byte: u8) -> u8 {
    if byte >= 0x30 {
        (byte - 0x30) as u8
    } else {
        (byte + 0xd0) as u8
    }
}

/// Whether a modifier byte says that Alt was held.
pub open spec fn modifier_alt(byte: u8) -> bool {
    modifier_value(byte) & 0x2 != 0
}

/// Whether a modifier byte says that Ctrl was held.
pub open spec fn modifier_ctrl(byte: u8) -> bool {
    modifier_value(byte) & 0x4 != 0
}

/// The event of `ESC [` followed by a digit from 1 to 8: a modified arrow
/// (`1 ; m A`), a special key (`n ~`) or a special key with a modifier (`n ; m ~`).
pub open spec fn parse_csi_digit(bytes: Seq<u8>) -> (Option<TerminalInput>, int)
    recommends
        bytes.len() >= 3,
{
    if bytes.len() >= 6 && bytes[2] == 0x31 && bytes[3] == 0x3b && is_arrow(bytes[5]) {
        (Some(key(modifier_ctrl(bytes[4]), modifier_alt(bytes[4]), ss3_key(bytes[5])->0)), 6)
    } else if bytes.len() >= 4 && bytes[3] == 0x7e {
        match special_key(bytes[2]) {
            Some(code) => (Some(key(false, false, code)), 4),
            None => (None, 4),
        }
    } else if bytes.len() >= 6 && bytes[3] == 0x3b && bytes[5] == 0x7e {
        match special_key(bytes[2]) {
            Some(code) => (Some(key(modifier_ctrl(bytes[4]), modifier_alt(bytes[4]), code)), 6),
            None => (None, 6),
        }
    } else if bytes.len() < 6 {
        (None, 0)
    } else {
        (None, 3)
    }
}

/// The bytes read as characters, each byte the character of the same code.
pub open spec fn byte_text(bytes: Seq<u8>) -> Seq<char> {
    bytes.map_values(|b: u8| b as char)
}

/// The three numbers `button ; x ; y` of the body of an SGR mouse report, each at most 65535.
pub open spec fn sgr_numbers(body: Seq<char>) -> Option<(u16, u16, u16)> {
    let first = index_of_either(body, 0, ';', ';');
    let second = index_of_either(body, first + 1, ';', ';');
    let third = index_of_either(body, second + 1, ';', ';');
    if first < body.len() && second < body.len() && third >= body.len() {
        match (
            unsigned_decimal(body.subrange(0, first), 0xffff),
            unsigned_decimal(body.subrange(first + 1, second), 0xffff),
            unsigned_decimal(body.subrange(second + 1, body.len() as int), 0xffff),
        ) {
            (Some(button), Some(x), Some(y)) => Some((button as u16, x as u16, y as u16)),
            _ => None,
        }
    } else {
        None
    }
}

/// The kind of event that an SGR button number stands for. Bit 0x20 marks a
/// drag; 64 and 65 are the wheel; otherwise the low two bits choose the
/// button, and the value 3 chooses none.
pub open spec fn sgr_mouse_event(button: u16, release: bool) -> Option<MouseEvent> {
    let low = button & 0x03;
    if button & 0x20 != 0 {
        Some(MouseEvent::Drag)
    } else if release {
        if low == 0 {
            Some(MouseEvent::LeftRelease)
        } else if low == 1 {
            Some(MouseEvent::MiddleRelease)
        } else if low == 2 {
            Some(MouseEvent::RightRelease)
        } else {
            None
        }
    } else if button == 64 {
        Some(MouseEvent::ScrollUp)
    } else if button == 65 {
        Some(MouseEvent::ScrollDown)
    } else if low == 0 {
        Some(MouseEvent::LeftPress)
    } else if low == 1 {
        Some(MouseEvent::MiddlePress)
    } else if low == 2 {
        Some(MouseEvent::RightPress)
    } else {
        None
    }
}

/// `coordinate - offset`, or zero where that would be negative.
pub open spec fn coordinate_from(coordinate: u16, offset: u16) -> usize {
    if coordinate >= offset {
        (coordinate - offset) as usize
    } else {
        0
    }
}

/// The mouse input of an SGR report: modifiers from bits 0x04, 0x08 and 0x10
/// of the button number, the position one less than the coordinates sent.
pub open spec fn sgr_mouse_input(button: u16, x: u16, y: u16, release: bool) -> Option<
    MouseInput,
> {
    match sgr_mouse_event(button, release) {
        Some(event) => Some(
            MouseInput {
                event,
                position: TerminalPosition {
                    row: coordinate_from(y, 1),
                    col: coordinate_from(x, 1),
                },
                ctrl: button & 0x10 != 0,
                alt: button & 0x08 != 0,
                shift: button & 0x04 != 0,
            },
        ),
        None => None,
    }
}

/// The event of `ESC [ <` and what follows: an SGR mouse report, which ends at
/// the first `M` (press) or `m` (release).
pub open spec fn parse_sgr_mouse(bytes: Seq<u8>) -> (Option<TerminalInput>, int)
    recommends
        bytes.len() >= 3,
{
    let text = byte_text(bytes);
    let end = index_of_either(text, 3, 'M', 'm');
    if end >= bytes.len() {
        (None, 0)
    } else {
        match sgr_numbers(text.subrange(3, end)) {
            Some((button, x, y)) => match sgr_mouse_input(button, x, y, text[end] == 'm') {
                Some(input) => (Some(TerminalInput::Mouse(input)), end + 1),
                None => (None, end + 1),
            },
            None => (None, end + 1),
        }
    }
}

/// The kind of event that an X10 button byte stands for.
pub open spec fn x10_mouse_event(button: u8) -> MouseEvent {
    let base = button & 0xe3;
    let low = button & 0x03;
    if button == 96 {
        MouseEvent::ScrollUp
    } else if button == 97 {
        MouseEvent::ScrollDown
    } else if base == 32 {
        MouseEvent::LeftPress
    } else if base == 33 {
        MouseEvent::MiddlePress
    } else if base == 34 {
        MouseEvent::RightPress
    } else if base == 35 {
        MouseEvent::LeftRelease
    } else if base == 64 {
        MouseEvent::Drag
    } else if low == 0 {
        MouseEvent::LeftPress
    } else if low == 1 {
        MouseEvent::MiddlePress
    } else if low == 2 {
        MouseEvent::RightPress
    } else {
        MouseEvent::LeftRelease
    }
}

/// The mouse input of an X10 report `ESC [ M b x y`: coordinates are the bytes less 33.
pub open spec fn x10_mouse_input(button: u8, x: u16, y: u16) -> MouseInput {
    MouseInput {
        event: x10_mouse_event(button),
        position: TerminalPosition { row: coordinate_from(y, 33), col: coordinate_from(x, 33) },
        ctrl: button & 0x10 != 0,
        alt: button & 0x08 != 0,
        shift: button & 0x04 != 0,
    }
}

/// The event of `ESC [` and what follows.
pub open spec fn parse_csi(bytes: Seq<u8>) -> (Option<TerminalInput>, int)
    recommends
        bytes.len() >= 2,
{
    if bytes.len() < 3 {
        (None, 0)
    } else if bytes[2] == 0x3c {
        parse_sgr_mouse(bytes)
    } else if bytes[2] == 0x4d {
        if bytes.len() < 6 {
            (None, 0)
        } else {
            (
                Some(
                    TerminalInput::Mouse(
                        x10_mouse_input(bytes[3], bytes[4] as u16, bytes[5] as u16),
                    ),
                ),
                6,
            )
        }
    } else if simple_csi_key(bytes[2]).is_some() {
        (Some(key(false, false, simple_csi_key(bytes[2])->0)), 3)
    } else if 0x31 <= bytes[2] <= 0x38 {
        parse_csi_digit(bytes)
    } else {
        (None, 3)
    }
}

/// The event of `ESC O` and what follows.
pub open spec fn parse_ss3(bytes: Seq<u8>) -> (Option<TerminalInput>, int)
    recommends
        bytes.len() >= 2,
{
    if bytes.len() < 3 {
        (None, 0)
    } else {
        match ss3_key(bytes[2]) {
            Some(code) => (Some(key(false, false, code)), 3),
            None => (None, 3),
        }
    }
}

/// The event of input that starts with ESC. A lone ESC decides nothing yet.
pub open spec fn parse_escape(bytes: Seq<u8>) -> (Option<TerminalInput>, int)
    recommends
        bytes.len() >= 1,
{
    if bytes.len() == 1 {
        (None, 0)
    } else if bytes[1] == 0x5b {
        parse_csi(bytes)
    } else if bytes[1] == 0x4f {
        parse_ss3(bytes)
    } else if bytes[1] < 0x80 && bytes[1] != ESC {
        parse_alt(bytes[1])
    } else {
        (Some(key(false, false, KeyCode::Escape)), 1)
    }
}

/// The number of bytes that the leading byte of a UTF-8 sequence announces, and one for a byte that can lead none.
pub open spec fn utf8_width(lead: u8) -> int {
    if is_leading_byte_width_2(lead) {
        2
    } else if is_leading_byte_width_3(lead) {
        3
    } else if is_leading_byte_width_4(lead) {
        4
    } else {
        1
    }
}

/// The event of input that starts with a byte of 0x80 or more: the character
/// that the announced number of bytes encodes in UTF-8.
pub open spec fn parse_utf8(bytes: Seq<u8>) -> (Option<TerminalInput>, int)
    recommends
        bytes.len() >= 1,
{
    let width = utf8_width(bytes[0]);
    if bytes.len() < width {
        (None, 0)
    } else if valid_first_scalar(bytes.take(width)) {
        (
            Some(key(false, false, KeyCode::Char(decode_first_scalar(bytes.take(width)) as char))),
            width,
        )
    } else {
        (None, 1)
    }
}

/// The grammar of terminal input: the event that `bytes` starts with, if any,
/// and how many bytes to take off the front. No event and zero bytes: more
/// input is needed. No event and some bytes: they mean nothing and are dropped.
pub open spec fn parse(bytes: Seq<u8>) -> (Option<TerminalInput>, int) {
    if bytes.len() == 0 {
        (None, 0)
    } else if bytes[0] == ESC {
        parse_escape(bytes)
    } else if bytes[0] == DEL {
        (Some(key(false, false, KeyCode::Backspace)), 1)
    } else if bytes[0] < 0x80 {
        parse_ascii(bytes[0])
    } else {
        parse_utf8(bytes)
    }
}

/// Whether an executable result is the given result of the grammar.
pub open spec fn parsed(result: (Option<TerminalInput>, usize), expected: (
    Option<TerminalInput>,
    int,
)) -> bool {
    result.0 == expected.0 && result.1 == expected.1
}

/// Makes the event of a key with the given modifiers.
pub fn create_key_input(ctrl: bool, alt: bool, code: KeyCode) -> (input: TerminalInput)
    ensures
        input == key(ctrl, alt, code),
{
    TerminalInput::Key(KeyInput { ctrl, alt, code })
}

/// Subtracts `offset` from a coordinate, stopping at zero.
fn shift_coordinate(coordinate: u16, offset: u16) -> (shifted: usize)
    ensures
        shifted == coordinate_from(coordinate, offset),
{
    if coordinate >= offset {
        (coordinate - offset) as usize
    } else {
        0
    }
}

/// Makes the mouse input of an SGR report from its three numbers and its
/// terminator; `None` where the button number names no button.
pub fn create_sgr_mouse_input(button: u16, x: u16, y: u16, is_release: bool) -> (input: Option<
    MouseInput,
>)
    ensures
        input == sgr_mouse_input(button, x, y, is_release),
{
    let low: u16 = button & 0x03;
    let event = if button & 0x20 != 0 {
        MouseEvent::Drag
    } else if is_release {
        if low == 0 {
            MouseEvent::LeftRelease
        } else if low == 1 {
            MouseEvent::MiddleRelease
        } else if low == 2 {
            MouseEvent::RightRelease
        } else {
            return None;
        }
    } else if button == 64 {
        MouseEvent::ScrollUp
    } else if button == 65 {
        MouseEvent::ScrollDown
    } else if low == 0 {
        MouseEvent::LeftPress
    } else if low == 1 {
        MouseEvent::MiddlePress
    } else if low == 2 {
        MouseEvent::RightPress
    } else {
        return None;
    };
    Some(
        MouseInput {
            event,
            position: TerminalPosition { row: shift_coordinate(y, 1), col: shift_coordinate(x, 1) },
            ctrl: button & 0x10 != 0,
            alt: button & 0x08 != 0,
            shift: button & 0x04 != 0,
        },
    )
}

/// Makes the mouse input of an X10 report from its button byte and its two coordinate bytes.
pub fn create_x10_mouse_input(button_byte: u8, x: u16, y: u16) -> (input: MouseInput)
    ensures
        input == x10_mouse_input(button_byte, x, y),
{
    let base: u8 = button_byte & 0xe3;
    let low: u8 = button_byte & 0x03;
    let event = if button_byte == 96 {
        MouseEvent::ScrollUp
    } else if button_byte == 97 {
        MouseEvent::ScrollDown
    } else if base == 32 {
        MouseEvent::LeftPress
    } else if base == 33 {
        MouseEvent::MiddlePress
    } else if base == 34 {
        MouseEvent::RightPress
    } else if base == 35 {
        MouseEvent::LeftRelease
    } else if base == 64 {
        MouseEvent::Drag
    } else if low == 0 {
        MouseEvent::LeftPress
    } else if low == 1 {
        MouseEvent::MiddlePress
    } else if low == 2 {
        MouseEvent::RightPress
    } else {
        MouseEvent::LeftRelease
    };
    MouseInput {
        event,
        position: TerminalPosition { row: shift_coordinate(y, 33), col: shift_coordinate(x, 33) },
        ctrl: button_byte & 0x10 != 0,
        alt: button_byte & 0x08 != 0,
        shift: button_byte & 0x04 != 0,
    }
}

/// The key of a control byte and whether it counts as Ctrl.
fn control_key_code(byte: u8) -> (pair: (bool, KeyCode))
    requires
        byte < 0x20,
    ensures
        pair == control_key(byte),
{
    if byte == 0x0d {
        (false, KeyCode::Enter)
    } else if byte == 0x09 {
        (false, KeyCode::Tab)
    } else {
        (true, KeyCode::Char((byte + 0x60) as char))
    }
}

/// The key named by the final byte of `ESC O x`.
fn ss3_key_code(byte: u8) -> (code: Option<KeyCode>)
    ensures
        code == ss3_key(byte),
{
    if byte == 0x41 {
        Some(KeyCode::Up)
    } else if byte == 0x42 {
        Some(KeyCode::Down)
    } else if byte == 0x43 {
        Some(KeyCode::Right)
    } else if byte == 0x44 {
        Some(KeyCode::Left)
    } else if byte == 0x48 {
        Some(KeyCode::Home)
    } else if byte == 0x46 {
        Some(KeyCode::End)
    } else {
        None
    }
}

/// The key named by the digit of `ESC [ n ~`.
fn special_key_code(digit: u8) -> (code: Option<KeyCode>)
    ensures
        code == special_key(digit),
{
    if digit == 0x31 || digit == 0x37 {
        Some(KeyCode::Home)
    } else if digit == 0x32 {
        Some(KeyCode::Insert)
    } else if digit == 0x33 {
        Some(KeyCode::Delete)
    } else if digit == 0x34 || digit == 0x38 {
        Some(KeyCode::End)
    } else if digit == 0x35 {
        Some(KeyCode::PageUp)
    } else if digit == 0x36 {
        Some(KeyCode::PageDown)
    } else {
        None
    }
}

/// The Ctrl and Alt flags that a modifier byte carries.
fn modifier_flags(byte: u8) -> (flags: (bool, bool))
    ensures
        flags.0 == modifier_ctrl(byte),
        flags.1 == modifier_alt(byte),
{
    let value: u8 = if byte >= 0x30 {
        byte - 0x30
    } else {
        byte + 0xd0
    };
    (value & 0x4 != 0, value & 0x2 != 0)
}

/// Decodes a single ASCII byte other than ESC and DEL.
fn parse_ascii_char(bytes: &[u8]) -> (result: (Option<TerminalInput>, usize))
    requires
        bytes@.len() >= 1,
        bytes@[0] < 0x80,
    ensures
        parsed(result, parse_ascii(bytes@[0])),
{
    let byte = bytes[0];
    if byte < 0x20 {
        let (ctrl, code) = control_key_code(byte);
        (Some(create_key_input(ctrl, false, code)), 1)
    } else {
        (Some(create_key_input(false, false, KeyCode::Char(byte as char))), 1)
    }
}

/// Decodes ESC followed by an ASCII byte: that key with Alt.
fn parse_alt_char(bytes: &[u8]) -> (result: (Option<TerminalInput>, usize))
    requires
        bytes@.len() >= 2,
        bytes@[1] < 0x80,
    ensures
        parsed(result, parse_alt(bytes@[1])),
{
    let byte = bytes[1];
    if byte < 0x20 {
        let (ctrl, code) = control_key_code(byte);
        (Some(create_key_input(ctrl, true, code)), 2)
    } else {
        (Some(create_key_input(false, true, KeyCode::Char(byte as char))), 2)
    }
}

/// Decodes `ESC O x`.
fn parse_ss3_sequence(bytes: &[u8]) -> (result: (Option<TerminalInput>, usize))
    requires
        bytes@.len() >= 2,
    ensures
        parsed(result, parse_ss3(bytes@)),
{
    if bytes.len() < 3 {
        return (None, 0);
    }
    match ss3_key_code(bytes[2]) {
        Some(code) => (Some(create_key_input(false, false, code)), 3),
        None => (None, 3),
    }
}

/// Decodes `ESC [ x` for a final byte that names a key by itself.
fn parse_simple_csi_key(bytes: &[u8]) -> (result: (Option<TerminalInput>, usize))
    requires
        bytes@.len() >= 3,
    ensures
        result.1 == 3,
        result.0 == match simple_csi_key(bytes@[2]) {
            Some(code) => Some(key(false, false, code)),
            None => None,
        },
{
    let code = if bytes[2] == 0x5a {
        Some(KeyCode::BackTab)
    } else {
        ss3_key_code(bytes[2])
    };
    match code {
        Some(code) => (Some(create_key_input(false, false, code)), 3),
        None => (None, 3),
    }
}

/// Decodes a modified arrow key, `ESC [ 1 ; m x`.
fn parse_modified_arrow_key(bytes: &[u8]) -> (result: (Option<TerminalInput>, usize))
    requires
        bytes@.len() >= 6,
        bytes@[2] == 0x31,
        bytes@[3] == 0x3b,
        is_arrow(bytes@[5]),
    ensures
        parsed(result, parse_csi_digit(bytes@)),
{
    let (ctrl, alt) = modifier_flags(bytes[4]);
    match ss3_key_code(bytes[5]) {
        Some(code) => (Some(create_key_input(ctrl, alt, code)), 6),
        None => (None, 6),
    }
}

/// Decodes a special key, `ESC [ n ~`.
fn parse_special_key_simple(bytes: &[u8]) -> (result: (Option<TerminalInput>, usize))
    requires
        bytes@.len() >= 4,
        bytes@[3] == 0x7e,
    ensures
        parsed(result, parse_csi_digit(bytes@)),
{
    match special_key_code(bytes[2]) {
        Some(code) => (Some(create_key_input(false, false, code)), 4),
        None => (None, 4),
    }
}

/// Decodes a special key with a modifier, `ESC [ n ; m ~`.
fn parse_special_key_with_modifier(bytes: &[u8]) -> (result: (Option<TerminalInput>, usize))
    requires
        bytes@.len() >= 6,
        bytes@[3] == 0x3b,
        bytes@[5] == 0x7e,
        !(bytes@[2] == 0x31 && is_arrow(bytes@[5])),
    ensures
        parsed(result, parse_csi_digit(bytes@)),
{
    let (ctrl, alt) = modifier_flags(bytes[4]);
    match special_key_code(bytes[2]) {
        Some(code) => (Some(create_key_input(ctrl, alt, code)), 6),
        None => (None, 6),
    }
}

/// Decodes `ESC [` followed by a digit from 1 to 8.
fn parse_complex_csi_key(bytes: &[u8]) -> (result: (Option<TerminalInput>, usize))
    requires
        bytes@.len() >= 3,
    ensures
        parsed(result, parse_csi_digit(bytes@)),
{
    if bytes.len() >= 6 && bytes[2] == 0x31 && bytes[3] == 0x3b && 0x41 <= bytes[5] && bytes[5]
        <= 0x44 {
        return parse_modified_arrow_key(bytes);
    }
    if bytes.len() >= 4 && bytes[3] == 0x7e {
        return parse_special_key_simple(bytes);
    }
    if bytes.len() >= 6 && bytes[3] == 0x3b && bytes[5] == 0x7e {
        return parse_special_key_with_modifier(bytes);
    }
    if bytes.len() < 6 {
        (None, 0)
    } else {
        (None, 3)
    }
}

/// Reads bytes as characters, each byte as the character of the same code.
fn text_of(bytes: &[u8]) -> (text: Vec<char>)
    ensures
        text@ == byte_text(bytes@),
{
    let mut text: Vec<char> = Vec::new();
    let mut i: usize = 0;
    while i < bytes.len()
        invariant
            i <= bytes@.len(),
            text@ == byte_text(bytes@).take(i as int),
        decreases bytes@.len() - i,
    {
        text.push(bytes[i] as char);
        assert(text@ =~= byte_text(bytes@).take(i + 1));
        i += 1;
    }
    assert(text@ =~= byte_text(bytes@));
    text
}

/// Reads the body of an SGR mouse report as its three numbers.
fn sgr_numbers_of(body: &[char]) -> (numbers: Option<(u16, u16, u16)>)
    ensures
        numbers == sgr_numbers(body@),
{
    let first = find_either(body, 0, ';', ';');
    if first >= body.len() {
        return None;
    }
    let second = find_either(body, first + 1, ';', ';');
    if second >= body.len() {
        return None;
    }
    let third = find_either(body, second + 1, ';', ';');
    if third < body.len() {
        return None;
    }
    let button = parse_unsigned(body, 0, first, 0xffff);
    let x = parse_unsigned(body, first + 1, second, 0xffff);
    let y = parse_unsigned(body, second + 1, body.len(), 0xffff);
    match (button, x, y) {
        (Some(button), Some(x), Some(y)) => Some((button as u16, x as u16, y as u16)),
        _ => None,
    }
}

/// Decodes an SGR mouse report, `ESC [ < button ; x ; y` and `M` or `m`.
fn parse_sgr_mouse_sequence(bytes: &[u8]) -> (result: (Option<TerminalInput>, usize))
    requires
        bytes@.len() >= 3,
    ensures
        parsed(result, parse_sgr_mouse(bytes@)),
{
    let text = text_of(bytes);
    let end = find_either(text.as_slice(), 3, 'M', 'm');
    if end >= text.len() {
        return (None, 0);
    }
    let body = vstd::slice::slice_subrange(text.as_slice(), 3, end);
    match sgr_numbers_of(body) {
        Some((button, x, y)) => {
            let is_release = bytes[end] == 0x6d;
            assert(is_release == (text@[end as int] == 'm'));
            match create_sgr_mouse_input(button, x, y, is_release) {
                Some(input) => (Some(TerminalInput::Mouse(input)), end + 1),
                None => (None, end + 1),
            }
        },
        None => (None, end + 1),
    }
}

/// Decodes an X10 mouse report, `ESC [ M` and three bytes.
fn parse_x10_mouse_sequence(bytes: &[u8]) -> (result: (Option<TerminalInput>, usize))
    requires
        bytes@.len() >= 3,
        bytes@[2] == 0x4d,
    ensures
        parsed(result, parse_csi(bytes@)),
{
    if bytes.len() < 6 {
        return (None, 0);
    }
    let input = create_x10_mouse_input(bytes[3], bytes[4] as u16, bytes[5] as u16);
    (Some(TerminalInput::Mouse(input)), 6)
}

/// Decodes `ESC [` and what follows.
fn parse_csi_sequence(bytes: &[u8]) -> (result: (Option<TerminalInput>, usize))
    requires
        bytes@.len() >= 2,
    ensures
        parsed(result, parse_csi(bytes@)),
{
    if bytes.len() < 3 {
        return (None, 0);
    }
    let byte = bytes[2];
    if byte == 0x3c {
        parse_sgr_mouse_sequence(bytes)
    } else if byte == 0x4d {
        parse_x10_mouse_sequence(bytes)
    } else if (0x41 <= byte && byte <= 0x44) || byte == 0x48 || byte == 0x46 || byte == 0x5a {
        parse_simple_csi_key(bytes)
    } else if 0x31 <= byte && byte <= 0x38 {
        parse_complex_csi_key(bytes)
    } else {
        (None, 3)
    }
}

/// Decodes input that starts with ESC.
fn parse_escape_sequence(bytes: &[u8]) -> (result: (Option<TerminalInput>, usize))
    requires
        bytes@.len() >= 1,
    ensures
        parsed(result, parse_escape(bytes@)),
{
    if bytes.len() == 1 {
        return (None, 0);
    }
    let byte = bytes[1];
    if byte == 0x5b {
        parse_csi_sequence(bytes)
    } else if byte == 0x4f {
        parse_ss3_sequence(bytes)
    } else if byte < 0x80 && byte != ESC {
        parse_alt_char(bytes)
    } else {
        (Some(create_key_input(false, false, KeyCode::Escape)), 1)
    }
}

/// Decodes the UTF-8 sequence of `width` bytes at the start of `bytes` into
/// its scalar value, or finds that the bytes are no such sequence.
fn decode_scalar(bytes: &[u8], width: usize) -> (code: Option<u32>)
    requires
        2 <= width <= 4,
        bytes@.len() >= width,
        width == utf8_width(bytes@[0]),
    ensures
        code.is_some() == valid_first_scalar(bytes@.take(width as int)),
        code matches Some(v) ==> v == decode_first_scalar(bytes@.take(width as int)) && is_scalar(
            v,
        ),
{
    let ghost unit = bytes@.take(width as int);
    let b0 = bytes[0];
    let b1 = bytes[1];
    assert(unit[0] == b0 && unit[1] == b1);
    if !(0x80 <= b1 && b1 <= 0xbf) {
        return None;
    }
    if width == 2 {
        let v: u32 = ((b0 & 0x1f) as u32) << 6 | (b1 & 0x3f) as u32;
        assert(v <= 0x7ff) by (bit_vector)
            requires
                v == ((b0 & 0x1f) as u32) << 6 | (b1 & 0x3f) as u32,
        ;
        if v < 0x80 {
            return None;
        }
        return Some(v);
    }
    let b2 = bytes[2];
    assert(unit[2] == b2);
    if !(0x80 <= b2 && b2 <= 0xbf) {
        return None;
    }
    if width == 3 {
        let v: u32 = ((b0 & 0x0f) as u32) << 12 | ((b1 & 0x3f) as u32) << 6 | (b2 & 0x3f) as u32;
        assert(v <= 0xffff) by (bit_vector)
            requires
                v == ((b0 & 0x0f) as u32) << 12 | ((b1 & 0x3f) as u32) << 6 | (b2 & 0x3f) as u32,
        ;
        if v < 0x800 || (0xd800 <= v && v <= 0xdfff) {
            return None;
        }
        return Some(v);
    }
    let b3 = bytes[3];
    assert(unit[3] == b3);
    if !(0x80 <= b3 && b3 <= 0xbf) {
        return None;
    }
    let v: u32 = ((b0 & 0x07) as u32) << 18 | ((b1 & 0x3f) as u32) << 12 | ((b2 & 0x3f) as u32)
        << 6 | (b3 & 0x3f) as u32;
    if v < 0x10000 || v > 0x10ffff {
        return None;
    }
    Some(v)
}

/// Decodes input that starts with a byte of 0x80 or more as one UTF-8 character.
fn parse_utf8_char(bytes: &[u8]) -> (result: (Option<TerminalInput>, usize))
    requires
        bytes@.len() >= 1,
        bytes@[0] >= 0x80,
    ensures
        parsed(result, parse_utf8(bytes@)),
{
    let lead = bytes[0];
    let width: usize = if 0xc0 <= lead && lead <= 0xdf {
        2
    } else if 0xe0 <= lead && lead <= 0xef {
        3
    } else if 0xf0 <= lead && lead <= 0xf7 {
        4
    } else {
        1
    };
    if bytes.len() < width {
        return (None, 0);
    }
    if width == 1 {
        assert(bytes@.take(1)[0] == lead);
        return (None, 1);
    }
    match decode_scalar(bytes, width) {
        Some(code) => match char::from_u32(code) {
            Some(c) => (Some(create_key_input(false, false, KeyCode::Char(c))), width),
            None => (None, 1),
        },
        None => (None, 1),
    }
}

/// Decodes the event at the start of `bytes` and says how many bytes it
/// takes. No event and zero bytes means that more input is needed; no event
/// and some bytes means that those bytes are to be dropped.
pub fn parse_input(bytes: &[u8]) -> (result: (Option<TerminalInput>, usize))
    ensures
        parsed(result, parse(bytes@)),
        result.1 <= bytes@.len(),
        result.0.is_some() ==> result.1 > 0,
{
    proof {
        lemma_parse_bounds(bytes@);
    }
    if bytes.len() == 0 {
        return (None, 0);
    }
    let lead = bytes[0];
    if lead == ESC {
        parse_escape_sequence(bytes)
    } else if lead == DEL {
        (Some(create_key_input(false, false, KeyCode::Backspace)), 1)
    } else if lead < 0x80 {
        parse_ascii_char(bytes)
    } else {
        parse_utf8_char(bytes)
    }
}

/// The grammar never takes more bytes than there are, takes at least one
/// with every event, and finds nothing in no bytes.
pub proof fn lemma_parse_bounds(bytes: Seq<u8>)
    ensures
        0 <= parse(bytes).1 <= bytes.len(),
        parse(bytes).0.is_some() ==> parse(bytes).1 > 0,
        bytes.len() == 0 ==> parse(bytes) == (None::<TerminalInput>, 0int),
{
    if bytes.len() >= 3 && bytes[0] == ESC && bytes[1] == 0x5b && bytes[2] == 0x3c {
        crate::text::lemma_index_of_either_bounds(byte_text(bytes), 3, 'M', 'm');
    }
}

/// An event that takes all of the bytes at hand is the event of those
/// bytes whatever follows them: the grammar needs no look beyond an event to
/// find its end.
pub proof fn lemma_parse_extends(bytes: Seq<u8>, more: Seq<u8>)
    requires
        parse(bytes).0.is_some(),
        parse(bytes).1 == bytes.len(),
    ensures
        parse(bytes + more) == parse(bytes),
{
    let all = bytes + more;
    assert forall|i: int| 0 <= i < bytes.len() implies all[i] == bytes[i] by {}
    lemma_parse_bounds(bytes);
    if bytes[0] == ESC {
        if bytes.len() >= 3 && bytes[1] == 0x5b && bytes[2] == 0x3c {
            let text = byte_text(bytes);
            assert(byte_text(all) =~= text + byte_text(more));
            crate::text::lemma_index_of_either_bounds(text, 3, 'M', 'm');
            let end = index_of_either(text, 3, 'M', 'm');
            crate::text::lemma_index_of_either_extends(text, byte_text(more), 3, 'M', 'm');
            assert(byte_text(all).subrange(3, end) =~= text.subrange(3, end));
            assert(byte_text(all)[end] == text[end]);
        }
    } else if bytes[0] >= 0x80 {
        let width = utf8_width(bytes[0]);
        assert(all.take(width) =~= bytes.take(width));
    }
}

} // verus!
