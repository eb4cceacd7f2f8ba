use std::io::{Cursor, ErrorKind, Read};

use tuinix::input::parse_input;
use tuinix::{
    InputReader, KeyCode, KeyInput, MouseEvent, MouseInput, TerminalInput, TerminalPosition,
};

/// Reads the next event as a program does: from the bytes at hand first, and
/// from the source where they hold none.
fn read_input<R: Read>(reader: &mut InputReader<R>) -> std::io::Result<Option<TerminalInput>> {
    if let Some(input) = reader.read_input_from_buf() {
        return Ok(Some(input));
    }
    let mut chunk = [0u8; 64];
    let size = reader.inner_mut().read(&mut chunk)?;
    reader
        .read_input(&chunk[..size])
        .map_err(|_| ErrorKind::UnexpectedEof.into())
}

#[test]
fn test_parse_regular_ascii_characters() {
    // Test regular ASCII characters
    let result = parse_input(b"a");
    assert_eq!(
        result.0,
        Some(TerminalInput::Key(KeyInput {
            ctrl: false,
            alt: false,
            code: KeyCode::Char('a'),
        }))
    );
    assert_eq!(result.1, 1);

    let result = parse_input(b"Z");
    assert_eq!(
        result.0,
        Some(TerminalInput::Key(KeyInput {
            ctrl: false,
            alt: false,
            code: KeyCode::Char('Z'),
        }))
    );
    assert_eq!(result.1, 1);

    let result = parse_input(b"5");
    assert_eq!(
        result.0,
        Some(TerminalInput::Key(KeyInput {
            ctrl: false,
            alt: false,
            code: KeyCode::Char('5'),
        }))
    );
    assert_eq!(result.1, 1);
}

#[test]
fn test_parse_control_characters() {
    // Test Ctrl+A (0x01)
    let result = parse_input(&[0x01]);
    assert_eq!(
        result.0,
        Some(TerminalInput::Key(KeyInput {
            ctrl: true,
            alt: false,
            code: KeyCode::Char('a'),
        }))
    );
    assert_eq!(result.1, 1);

    // Test Ctrl+Z (0x1A)
    let result = parse_input(&[0x1A]);
    assert_eq!(
        result.0,
        Some(TerminalInput::Key(KeyInput {
            ctrl: true,
            alt: false,
            code: KeyCode::Char('z'),
        }))
    );
    assert_eq!(result.1, 1);

    // Test Enter (0x0D)
    let result = parse_input(&[0x0D]);
    assert_eq!(
        result.0,
        Some(TerminalInput::Key(KeyInput {
            ctrl: false,
            alt: false,
            code: KeyCode::Enter,
        }))
    );
    assert_eq!(result.1, 1);

    // Test Tab (0x09)
    let result = parse_input(&[0x09]);
    assert_eq!(
        result.0,
        Some(TerminalInput::Key(KeyInput {
            ctrl: false,
            alt: false,
            code: KeyCode::Tab,
        }))
    );
    assert_eq!(result.1, 1);
}

#[test]
fn test_parse_backspace() {
    let result = parse_input(&[0x7F]);
    assert_eq!(
        result.0,
        Some(TerminalInput::Key(KeyInput {
            ctrl: false,
            alt: false,
            code: KeyCode::Backspace,
        }))
    );
    assert_eq!(result.1, 1);
}

#[test]
fn test_parse_escape_key() {
    // Standalone ESC key
    let result = parse_input(&[0x1b]);
    assert_eq!(result.0, None); // Need more bytes
    assert_eq!(result.1, 0);

    // ESC followed by unknown character should be treated as ESC
    let result = parse_input(&[0x1b, b'x']);
    assert_eq!(
        result.0,
        Some(TerminalInput::Key(KeyInput {
            ctrl: false,
            alt: true,
            code: KeyCode::Char('x'),
        }))
    );
    assert_eq!(result.1, 2);
}

#[test]
fn test_parse_alt_combinations() {
    // Alt+a
    let result = parse_input(&[0x1b, b'a']);
    assert_eq!(
        result.0,
        Some(TerminalInput::Key(KeyInput {
            ctrl: false,
            alt: true,
            code: KeyCode::Char('a'),
        }))
    );
    assert_eq!(result.1, 2);

    // Alt+Enter
    let result = parse_input(&[0x1b, 0x0D]);
    assert_eq!(
        result.0,
        Some(TerminalInput::Key(KeyInput {
            ctrl: false,
            alt: true,
            code: KeyCode::Enter,
        }))
    );
    assert_eq!(result.1, 2);

    // Alt+Tab
    let result = parse_input(&[0x1b, 0x09]);
    assert_eq!(
        result.0,
        Some(TerminalInput::Key(KeyInput {
            ctrl: false,
            alt: true,
            code: KeyCode::Tab,
        }))
    );
    assert_eq!(result.1, 2);
}

#[test]
fn test_parse_arrow_keys_esc_bracket() {
    // Up arrow: ESC [ A
    let result = parse_input(&[0x1b, b'[', b'A']);
    assert_eq!(
        result.0,
        Some(TerminalInput::Key(KeyInput {
            ctrl: false,
            alt: false,
            code: KeyCode::Up,
        }))
    );
    assert_eq!(result.1, 3);

    // Down arrow: ESC [ B
    let result = parse_input(&[0x1b, b'[', b'B']);
    assert_eq!(
        result.0,
        Some(TerminalInput::Key(KeyInput {
            ctrl: false,
            alt: false,
            code: KeyCode::Down,
        }))
    );
    assert_eq!(result.1, 3);

    // Right arrow: ESC [ C
    let result = parse_input(&[0x1b, b'[', b'C']);
    assert_eq!(
        result.0,
        Some(TerminalInput::Key(KeyInput {
            ctrl: false,
            alt: false,
            code: KeyCode::Right,
        }))
    );
    assert_eq!(result.1, 3);

    // Left arrow: ESC [ D
    let result = parse_input(&[0x1b, b'[', b'D']);
    assert_eq!(
        result.0,
        Some(TerminalInput::Key(KeyInput {
            ctrl: false,
            alt: false,
            code: KeyCode::Left,
        }))
    );
    assert_eq!(result.1, 3);
}

#[test]
fn test_parse_arrow_keys_esc_o() {
    // Up arrow: ESC O A
    let result = parse_input(&[0x1b, b'O', b'A']);
    assert_eq!(
        result.0,
        Some(TerminalInput::Key(KeyInput {
            ctrl: false,
            alt: false,
            code: KeyCode::Up,
        }))
    );
    assert_eq!(result.1, 3);

    // Down arrow: ESC O B
    let result = parse_input(&[0x1b, b'O', b'B']);
    assert_eq!(
        result.0,
        Some(TerminalInput::Key(KeyInput {
            ctrl: false,
            alt: false,
            code: KeyCode::Down,
        }))
    );
    assert_eq!(result.1, 3);
}

#[test]
fn test_parse_home_end_keys() {
    // Home: ESC [ H
    let result = parse_input(&[0x1b, b'[', b'H']);
    assert_eq!(
        result.0,
        Some(TerminalInput::Key(KeyInput {
            ctrl: false,
            alt: false,
            code: KeyCode::Home,
        }))
    );
    assert_eq!(result.1, 3);

    // End: ESC [ F
    let result = parse_input(&[0x1b, b'[', b'F']);
    assert_eq!(
        result.0,
        Some(TerminalInput::Key(KeyInput {
            ctrl: false,
            alt: false,
            code: KeyCode::End,
        }))
    );
    assert_eq!(result.1, 3);

    // Home: ESC O H
    let result = parse_input(&[0x1b, b'O', b'H']);
    assert_eq!(
        result.0,
        Some(TerminalInput::Key(KeyInput {
            ctrl: false,
            alt: false,
            code: KeyCode::Home,
        }))
    );
    assert_eq!(result.1, 3);

    // End: ESC O F
    let result = parse_input(&[0x1b, b'O', b'F']);
    assert_eq!(
        result.0,
        Some(TerminalInput::Key(KeyInput {
            ctrl: false,
            alt: false,
            code: KeyCode::End,
        }))
    );
    assert_eq!(result.1, 3);
}

#[test]
fn test_parse_special_keys() {
    // Shift+Tab: ESC [ Z
    let result = parse_input(&[0x1b, b'[', b'Z']);
    assert_eq!(
        result.0,
        Some(TerminalInput::Key(KeyInput {
            ctrl: false,
            alt: false,
            code: KeyCode::BackTab,
        }))
    );
    assert_eq!(result.1, 3);

    // Insert: ESC [ 2 ~
    let result = parse_input(&[0x1b, b'[', b'2', b'~']);
    assert_eq!(
        result.0,
        Some(TerminalInput::Key(KeyInput {
            ctrl: false,
            alt: false,
            code: KeyCode::Insert,
        }))
    );
    assert_eq!(result.1, 4);

    // Delete: ESC [ 3 ~
    let result = parse_input(&[0x1b, b'[', b'3', b'~']);
    assert_eq!(
        result.0,
        Some(TerminalInput::Key(KeyInput {
            ctrl: false,
            alt: false,
            code: KeyCode::Delete,
        }))
    );
    assert_eq!(result.1, 4);

    // Page Up: ESC [ 5 ~
    let result = parse_input(&[0x1b, b'[', b'5', b'~']);
    assert_eq!(
        result.0,
        Some(TerminalInput::Key(KeyInput {
            ctrl: false,
            alt: false,
            code: KeyCode::PageUp,
        }))
    );
    assert_eq!(result.1, 4);

    // Page Down: ESC [ 6 ~
    let result = parse_input(&[0x1b, b'[', b'6', b'~']);
    assert_eq!(
        result.0,
        Some(TerminalInput::Key(KeyInput {
            ctrl: false,
            alt: false,
            code: KeyCode::PageDown,
        }))
    );
    assert_eq!(result.1, 4);
}

#[test]
fn test_parse_modified_arrow_keys() {
    // Ctrl+Up: ESC [ 1 ; 5 A (modifier 5 = Ctrl)
    let result = parse_input(&[0x1b, b'[', b'1', b';', b'5', b'A']);
    assert_eq!(
        result.0,
        Some(TerminalInput::Key(KeyInput {
            ctrl: true,
            alt: false,
            code: KeyCode::Up,
        }))
    );
    assert_eq!(result.1, 6);

    // Alt+Right: ESC [ 1 ; 3 C (modifier 3 = Alt)
    let result = parse_input(&[0x1b, b'[', b'1', b';', b'3', b'C']);
    assert_eq!(
        result.0,
        Some(TerminalInput::Key(KeyInput {
            ctrl: false,
            alt: true,
            code: KeyCode::Right,
        }))
    );
    assert_eq!(result.1, 6);

    // Ctrl+Alt+Left: ESC [ 1 ; 7 D (modifier 7 = Ctrl+Alt)
    let result = parse_input(&[0x1b, b'[', b'1', b';', b'7', b'D']);
    assert_eq!(
        result.0,
        Some(TerminalInput::Key(KeyInput {
            ctrl: true,
            alt: true,
            code: KeyCode::Left,
        }))
    );
    assert_eq!(result.1, 6);
}

#[test]
fn test_parse_modified_special_keys() {
    // Ctrl+Delete: ESC [ 3 ; 5 ~
    let result = parse_input(&[0x1b, b'[', b'3', b';', b'5', b'~']);
    assert_eq!(
        result.0,
        Some(TerminalInput::Key(KeyInput {
            ctrl: true,
            alt: false,
            code: KeyCode::Delete,
        }))
    );
    assert_eq!(result.1, 6);

    // Alt+Home: ESC [ 1 ; 3 ~
    let result = parse_input(&[0x1b, b'[', b'1', b';', b'3', b'~']);
    assert_eq!(
        result.0,
        Some(TerminalInput::Key(KeyInput {
            ctrl: false,
            alt: true,
            code: KeyCode::Home,
        }))
    );
    assert_eq!(result.1, 6);
}

#[test]
fn test_parse_utf8_characters() {
    // Test UTF-8 character (é = 0xC3 0xA9)
    let result = parse_input(&[0xC3, 0xA9]);
    assert_eq!(
        result.0,
        Some(TerminalInput::Key(KeyInput {
            ctrl: false,
            alt: false,
            code: KeyCode::Char('é'),
        }))
    );
    assert_eq!(result.1, 2);

    // Test 3-byte UTF-8 character (€ = 0xE2 0x82 0xAC)
    let result = parse_input(&[0xE2, 0x82, 0xAC]);
    assert_eq!(
        result.0,
        Some(TerminalInput::Key(KeyInput {
            ctrl: false,
            alt: false,
            code: KeyCode::Char('€'),
        }))
    );
    assert_eq!(result.1, 3);

    // Test incomplete UTF-8 sequence
    let result = parse_input(&[0xC3]);
    assert_eq!(result.0, None); // Need more bytes
    assert_eq!(result.1, 0);
}

#[test]
fn test_parse_incomplete_sequences() {
    // Incomplete escape sequence
    let result = parse_input(&[0x1b, b'[']);
    assert_eq!(result.0, None); // Need more bytes
    assert_eq!(result.1, 0);

    // Incomplete special key sequence
    let result = parse_input(&[0x1b, b'[', b'2']);
    assert_eq!(result.0, None); // Need more bytes
    assert_eq!(result.1, 0);

    // Incomplete modified key sequence
    let result = parse_input(&[0x1b, b'[', b'1', b';']);
    assert_eq!(result.0, None); // Need more bytes
    assert_eq!(result.1, 0);
}

#[test]
fn test_parse_empty_input() {
    let result = parse_input(&[]);
    assert_eq!(result.0, None);
    assert_eq!(result.1, 0);
}

#[test]
fn test_parse_unknown_sequences() {
    // Unknown escape sequence should be discarded
    let result = parse_input(&[0x1b, b'[', b'X']);
    assert_eq!(result.0, None);
    assert_eq!(result.1, 3);

    // Unknown ESC O sequence
    let result = parse_input(&[0x1b, b'O', b'X']);
    assert_eq!(result.0, None);
    assert_eq!(result.1, 3);

    // Invalid UTF-8 sequence
    let result = parse_input(&[0xFF]);
    assert_eq!(result.0, None);
    assert_eq!(result.1, 1);
}

#[test]
fn test_input_reader() {

    // Test reading a simple character
    let mut reader = InputReader::new(Cursor::new(b"a"));
    let result = read_input(&mut reader).unwrap();
    assert_eq!(
        result,
        Some(TerminalInput::Key(KeyInput {
            ctrl: false,
            alt: false,
            code: KeyCode::Char('a'),
        }))
    );

    // Test reading an arrow key
    let mut reader = InputReader::new(Cursor::new(&[0x1b, b'[', b'A'][..]));
    let result = read_input(&mut reader).unwrap();
    assert_eq!(
        result,
        Some(TerminalInput::Key(KeyInput {
            ctrl: false,
            alt: false,
            code: KeyCode::Up,
        }))
    );

    // Test reading multiple inputs
    let mut reader = InputReader::new(Cursor::new(b"ab"));
    let result1 = read_input(&mut reader).unwrap();
    let result2 = read_input(&mut reader).unwrap();

    assert_eq!(
        result1,
        Some(TerminalInput::Key(KeyInput {
            ctrl: false,
            alt: false,
            code: KeyCode::Char('a'),
        }))
    );
    assert_eq!(
        result2,
        Some(TerminalInput::Key(KeyInput {
            ctrl: false,
            alt: false,
            code: KeyCode::Char('b'),
        }))
    );
}

#[test]
fn test_parse_mouse_scroll_events() {
    // SGR mode scroll up: ESC [ < 64 ; 10 ; 5 M
    let input = b"\x1b[<64;10;5M";
    let result = parse_input(input);
    assert_eq!(
        result.0,
        Some(TerminalInput::Mouse(MouseInput {
            event: MouseEvent::ScrollUp,
            position: TerminalPosition::row_col(4, 9), // row: 5-1, col: 10-1
            ctrl: false,
            alt: false,
            shift: false,
        }))
    );

    // SGR mode scroll down: ESC [ < 65 ; 10 ; 5 M
    let input = b"\x1b[<65;10;5M";
    let result = parse_input(input);
    assert_eq!(
        result.0,
        Some(TerminalInput::Mouse(MouseInput {
            event: MouseEvent::ScrollDown,
            position: TerminalPosition::row_col(4, 9),
            ctrl: false,
            alt: false,
            shift: false,
        }))
    );
}

#[test]
fn test_parse_mouse_sgr_mode_button_press() {
    // SGR mode left button press: ESC [ < 0 ; 10 ; 5 M
    let input = b"\x1b[<0;10;5M";
    let result = parse_input(input);
    assert_eq!(
        result.0,
        Some(TerminalInput::Mouse(MouseInput {
            event: MouseEvent::LeftPress,
            position: TerminalPosition::row_col(4, 9), // row: 5-1, col: 10-1
            ctrl: false,
            alt: false,
            shift: false,
        }))
    );
    assert_eq!(result.1, input.len());

    // SGR mode middle button press: ESC [ < 1 ; 10 ; 5 M
    let input = b"\x1b[<1;10;5M";
    let result = parse_input(input);
    assert_eq!(
        result.0,
        Some(TerminalInput::Mouse(MouseInput {
            event: MouseEvent::MiddlePress,
            position: TerminalPosition::row_col(4, 9),
            ctrl: false,
            alt: false,
            shift: false,
        }))
    );

    // SGR mode right button press: ESC [ < 2 ; 10 ; 5 M
    let input = b"\x1b[<2;10;5M";
    let result = parse_input(input);
    assert_eq!(
        result.0,
        Some(TerminalInput::Mouse(MouseInput {
            event: MouseEvent::RightPress,
            position: TerminalPosition::row_col(4, 9),
            ctrl: false,
            alt: false,
            shift: false,
        }))
    );
}

#[test]
fn test_parse_mouse_sgr_mode_button_release() {
    // SGR mode left button release: ESC [ < 0 ; 10 ; 5 m (lowercase 'm')
    let input = b"\x1b[<0;10;5m";
    let result = parse_input(input);
    assert_eq!(
        result.0,
        Some(TerminalInput::Mouse(MouseInput {
            event: MouseEvent::LeftRelease,
            position: TerminalPosition::row_col(4, 9),
            ctrl: false,
            alt: false,
            shift: false,
        }))
    );

    // SGR mode middle button release: ESC [ < 1 ; 10 ; 5 m
    let input = b"\x1b[<1;10;5m";
    let result = parse_input(input);
    assert_eq!(
        result.0,
        Some(TerminalInput::Mouse(MouseInput {
            event: MouseEvent::MiddleRelease,
            position: TerminalPosition::row_col(4, 9),
            ctrl: false,
            alt: false,
            shift: false,
        }))
    );

    // SGR mode right button release: ESC [ < 2 ; 10 ; 5 m
    let input = b"\x1b[<2;10;5m";
    let result = parse_input(input);
    assert_eq!(
        result.0,
        Some(TerminalInput::Mouse(MouseInput {
            event: MouseEvent::RightRelease,
            position: TerminalPosition::row_col(4, 9),
            ctrl: false,
            alt: false,
            shift: false,
        }))
    );
}

#[test]
fn test_parse_mouse_sgr_mode_with_modifiers() {
    // SGR mode with Ctrl modifier: ESC [ < 16 ; 10 ; 5 M (16 = 0 + 16)
    let input = b"\x1b[<16;10;5M";
    let result = parse_input(input);
    assert_eq!(
        result.0,
        Some(TerminalInput::Mouse(MouseInput {
            event: MouseEvent::LeftPress,
            position: TerminalPosition::row_col(4, 9),
            ctrl: true,
            alt: false,
            shift: false,
        }))
    );

    // SGR mode with Alt modifier: ESC [ < 8 ; 10 ; 5 M (8 = 0 + 8)
    let input = b"\x1b[<8;10;5M";
    let result = parse_input(input);
    assert_eq!(
        result.0,
        Some(TerminalInput::Mouse(MouseInput {
            event: MouseEvent::LeftPress,
            position: TerminalPosition::row_col(4, 9),
            ctrl: false,
            alt: true,
            shift: false,
        }))
    );

    // SGR mode with Shift modifier: ESC [ < 4 ; 10 ; 5 M (4 = 0 + 4)
    let input = b"\x1b[<4;10;5M";
    let result = parse_input(input);
    assert_eq!(
        result.0,
        Some(TerminalInput::Mouse(MouseInput {
            event: MouseEvent::LeftPress,
            position: TerminalPosition::row_col(4, 9),
            ctrl: false,
            alt: false,
            shift: true,
        }))
    );

    // SGR mode with all modifiers: ESC [ < 28 ; 10 ; 5 M (28 = 0 + 4 + 8 + 16)
    let input = b"\x1b[<28;10;5M";
    let result = parse_input(input);
    assert_eq!(
        result.0,
        Some(TerminalInput::Mouse(MouseInput {
            event: MouseEvent::LeftPress,
            position: TerminalPosition::row_col(4, 9),
            ctrl: true,
            alt: true,
            shift: true,
        }))
    );
}
#[test]
fn test_parse_mouse_sgr_mode_drag() {
    // SGR mode drag: ESC [ < 32 ; 10 ; 5 M (32 = 0 + 32)
    let input = b"\x1b[<32;10;5M";
    let result = parse_input(input);
    assert_eq!(
        result.0,
        Some(TerminalInput::Mouse(MouseInput {
            event: MouseEvent::Drag,
            position: TerminalPosition::row_col(4, 9),
            ctrl: false,
            alt: false,
            shift: false,
        }))
    );

    // SGR mode drag with modifiers: ESC [ < 60 ; 10 ; 5 M (60 = 0 + 4 + 8 + 16 + 32)
    let input = b"\x1b[<60;10;5M";
    let result = parse_input(input);
    assert_eq!(
        result.0,
        Some(TerminalInput::Mouse(MouseInput {
            event: MouseEvent::Drag,
            position: TerminalPosition::row_col(4, 9),
            ctrl: true,
            alt: true,
            shift: true,
        }))
    );
}

#[test]
fn test_parse_mouse_x10_x11_mode() {
    // X10/X11 mode left button press: ESC [ M <button> <x> <y>
    // Button 32 (0x20) = left press, x=43 (10+33), y=38 (5+33)
    let input = b"\x1b[M \x2b\x26";
    let result = parse_input(input);
    assert_eq!(
        result.0,
        Some(TerminalInput::Mouse(MouseInput {
            event: MouseEvent::LeftPress,
            position: TerminalPosition::row_col(5, 10),
            ctrl: false,
            alt: false,
            shift: false,
        }))
    );
    assert_eq!(result.1, 6);

    // X10/X11 mode middle button press: ESC [ M <button> <x> <y>
    // Button 33 (0x21) = middle press
    let input = b"\x1b[M!\x2b\x26";
    let result = parse_input(input);
    assert_eq!(
        result.0,
        Some(TerminalInput::Mouse(MouseInput {
            event: MouseEvent::MiddlePress,
            position: TerminalPosition::row_col(5, 10),
            ctrl: false,
            alt: false,
            shift: false,
        }))
    );

    // X10/X11 mode right button press: ESC [ M <button> <x> <y>
    // Button 34 (0x22) = right press
    let input = b"\x1b[M\"\x2b\x26";
    let result = parse_input(input);
    assert_eq!(
        result.0,
        Some(TerminalInput::Mouse(MouseInput {
            event: MouseEvent::RightPress,
            position: TerminalPosition::row_col(5, 10),
            ctrl: false,
            alt: false,
            shift: false,
        }))
    );

    // X10/X11 mode button release: ESC [ M <button> <x> <y>
    // Button 35 (0x23) = release
    let input = b"\x1b[M#\x2b\x26";
    let result = parse_input(input);
    assert_eq!(
        result.0,
        Some(TerminalInput::Mouse(MouseInput {
            event: MouseEvent::LeftRelease,
            position: TerminalPosition::row_col(5, 10),
            ctrl: false,
            alt: false,
            shift: false,
        }))
    );
}

#[test]
fn test_parse_mouse_x10_x11_mode_with_modifiers() {
    // X10/X11 mode with Ctrl modifier: button = 32 + 16 = 48 (0x30)
    let input = b"\x1b[M0\x2b\x26";
    let result = parse_input(input);
    assert_eq!(
        result.0,
        Some(TerminalInput::Mouse(MouseInput {
            event: MouseEvent::LeftPress,
            position: TerminalPosition::row_col(5, 10),
            ctrl: true,
            alt: false,
            shift: false,
        }))
    );

    // X10/X11 mode with Alt modifier: button = 32 + 8 = 40 (0x28)
    let input = b"\x1b[M(\x2b\x26";
    let result = parse_input(input);
    assert_eq!(
        result.0,
        Some(TerminalInput::Mouse(MouseInput {
            event: MouseEvent::LeftPress,
            position: TerminalPosition::row_col(5, 10),
            ctrl: false,
            alt: true,
            shift: false,
        }))
    );

    // X10/X11 mode with Shift modifier: button = 32 + 4 = 36 (0x24)
    let input = b"\x1b[M$\x2b\x26";
    let result = parse_input(input);
    assert_eq!(
        result.0,
        Some(TerminalInput::Mouse(MouseInput {
            event: MouseEvent::LeftPress,
            position: TerminalPosition::row_col(5, 10),
            ctrl: false,
            alt: false,
            shift: true,
        }))
    );
}

#[test]
fn test_parse_mouse_x10_x11_mode_scroll() {
    // X10/X11 mode scroll up: button = 96 (0x60)
    let input = b"\x1b[M`\x2b\x26";
    let result = parse_input(input);
    assert_eq!(
        result.0,
        Some(TerminalInput::Mouse(MouseInput {
            event: MouseEvent::ScrollUp,
            position: TerminalPosition::row_col(5, 10),
            ctrl: false,
            alt: false,
            shift: false,
        }))
    );

    // X10/X11 mode scroll down: button = 97 (0x61)
    let input = b"\x1b[Ma\x2b\x26";
    let result = parse_input(input);
    assert_eq!(
        result.0,
        Some(TerminalInput::Mouse(MouseInput {
            event: MouseEvent::ScrollDown,
            position: TerminalPosition::row_col(5, 10),
            ctrl: false,
            alt: false,
            shift: false,
        }))
    );
}

#[test]
fn test_parse_mouse_x10_x11_mode_drag() {
    // X10/X11 mode drag: button = 32 + 32 = 64 (0x40)
    let input = b"\x1b[M@\x2b\x26";
    let result = parse_input(input);
    assert_eq!(
        result.0,
        Some(TerminalInput::Mouse(MouseInput {
            event: MouseEvent::Drag,
            position: TerminalPosition::row_col(5, 10),
            ctrl: false,
            alt: false,
            shift: false,
        }))
    );
}

#[test]
fn test_parse_mouse_coordinate_boundaries() {
    // Test coordinates at origin (1,1 -> 0,0)
    let input = b"\x1b[<0;1;1M";
    let result = parse_input(input);
    assert_eq!(
        result.0,
        Some(TerminalInput::Mouse(MouseInput {
            event: MouseEvent::LeftPress,
            position: TerminalPosition::row_col(0, 0),
            ctrl: false,
            alt: false,
            shift: false,
        }))
    );

    // Test large coordinates
    let input = b"\x1b[<0;100;200M";
    let result = parse_input(input);
    assert_eq!(
        result.0,
        Some(TerminalInput::Mouse(MouseInput {
            event: MouseEvent::LeftPress,
            position: TerminalPosition::row_col(199, 99), // row: 200-1, col: 100-1
            ctrl: false,
            alt: false,
            shift: false,
        }))
    );
}

#[test]
fn test_parse_mouse_edge_cases() {
    // SGR sequence with zero coordinates (should saturate to 0)
    let input = b"\x1b[<0;0;0M";
    let result = parse_input(input);
    assert_eq!(
        result.0,
        Some(TerminalInput::Mouse(MouseInput {
            event: MouseEvent::LeftPress,
            position: TerminalPosition::row_col(0, 0), // saturating_sub(1) on 0 = 0
            ctrl: false,
            alt: false,
            shift: false,
        }))
    );

    // X10/X11 sequence with minimum coordinate values (33)
    let input = b"\x1b[M !!";
    let result = parse_input(input);
    assert_eq!(
        result.0,
        Some(TerminalInput::Mouse(MouseInput {
            event: MouseEvent::LeftPress,
            position: TerminalPosition::row_col(0, 0), // 33-33 = 0
            ctrl: false,
            alt: false,
            shift: false,
        }))
    );
}

#[test]
fn test_input_reader_mouse_events() {

    // Test reading a mouse click
    let mut reader = InputReader::new(Cursor::new(b"\x1b[<0;10;5M"));
    let result = read_input(&mut reader).unwrap();
    assert_eq!(
        result,
        Some(TerminalInput::Mouse(MouseInput {
            event: MouseEvent::LeftPress,
            position: TerminalPosition::row_col(4, 9),
            ctrl: false,
            alt: false,
            shift: false,
        }))
    );

    // Test reading multiple mouse events
    let mut reader = InputReader::new(Cursor::new(b"\x1b[<0;10;5M\x1b[<0;10;5m"));
    let result1 = read_input(&mut reader).unwrap();
    let result2 = read_input(&mut reader).unwrap();

    assert_eq!(
        result1,
        Some(TerminalInput::Mouse(MouseInput {
            event: MouseEvent::LeftPress,
            position: TerminalPosition::row_col(4, 9),
            ctrl: false,
            alt: false,
            shift: false,
        }))
    );
    assert_eq!(
        result2,
        Some(TerminalInput::Mouse(MouseInput {
            event: MouseEvent::LeftRelease,
            position: TerminalPosition::row_col(4, 9),
            ctrl: false,
            alt: false,
            shift: false,
        }))
    );
}

#[test]
fn test_parse_home_end_keys_by_number() {
    let home = Some(TerminalInput::Key(KeyInput {
        ctrl: false,
        alt: false,
        code: KeyCode::Home,
    }));
    let end = Some(TerminalInput::Key(KeyInput {
        ctrl: false,
        alt: false,
        code: KeyCode::End,
    }));
    assert_eq!(parse_input(b"\x1b[1~"), (home, 4));
    assert_eq!(parse_input(b"\x1b[7~"), (home, 4));
    assert_eq!(parse_input(b"\x1b[4~"), (end, 4));
    assert_eq!(parse_input(b"\x1b[8~"), (end, 4));
    assert_eq!(parse_input(b"\x1b[9~"), (None, 3));
}

#[test]
fn test_parse_escape_before_what_is_no_sequence() {
    let escape = Some(TerminalInput::Key(KeyInput {
        ctrl: false,
        alt: false,
        code: KeyCode::Escape,
    }));
    assert_eq!(parse_input(&[0x1b, 0x1b]), (escape, 1));
    assert_eq!(parse_input(&[0x1b, 0xc3, 0xa9]), (escape, 1));
    assert_eq!(
        parse_input(&[0x1b, 0x08]),
        (
            Some(TerminalInput::Key(KeyInput {
                ctrl: true,
                alt: true,
                code: KeyCode::Char('h'),
            })),
            2
        )
    );
    assert_eq!(
        parse_input(&[0x1b, 0x01]),
        (
            Some(TerminalInput::Key(KeyInput {
                ctrl: true,
                alt: true,
                code: KeyCode::Char('a'),
            })),
            2
        )
    );
}

#[test]
fn test_parse_utf8_edge_cases() {
    let key = |c: char| {
        Some(TerminalInput::Key(KeyInput {
            ctrl: false,
            alt: false,
            code: KeyCode::Char(c),
        }))
    };
    assert_eq!(parse_input("😀".as_bytes()), (key('😀'), 4));
    assert_eq!(parse_input(&[0xf0, 0x9f, 0x98]), (None, 0));
    // an overlong form, a surrogate, a code point that is too large, a stray continuation byte
    assert_eq!(parse_input(&[0xc0, 0x80]), (None, 1));
    assert_eq!(parse_input(&[0xed, 0xa0, 0x80]), (None, 1));
    assert_eq!(parse_input(&[0xf4, 0x90, 0x80, 0x80]), (None, 1));
    assert_eq!(parse_input(&[0x80]), (None, 1));
    assert_eq!(parse_input(&[0xc3, b'a']), (None, 1));
}

#[test]
fn test_parse_mouse_sgr_mode_rejects() {
    // not three numbers, not a number, a number that is too large, no button
    assert_eq!(parse_input(b"\x1b[<0;10M"), (None, 8));
    assert_eq!(parse_input(b"\x1b[<0;10;5;1M"), (None, 12));
    assert_eq!(parse_input(b"\x1b[<0;x;5M"), (None, 9));
    assert_eq!(parse_input(b"\x1b[<0;65536;5M"), (None, 13));
    assert_eq!(parse_input(b"\x1b[<3;10;5M"), (None, 10));
    assert_eq!(parse_input(b"\x1b[<0;10;5"), (None, 0));
    assert_eq!(parse_input(&[0x1b, b'[', b'<', 0xff, b'M']), (None, 5));
}
