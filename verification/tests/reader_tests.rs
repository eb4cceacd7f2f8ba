use std::io::{Error, ErrorKind};

use tuinix::{
    try_nonblocking, try_uninterrupted, InputReader, KeyCode, KeyInput, TerminalError,
    TerminalInput,
};

fn key(code: KeyCode) -> TerminalInput {
    TerminalInput::Key(KeyInput {
        ctrl: false,
        alt: false,
        code,
    })
}

#[test]
fn the_reader_keeps_what_is_not_yet_an_event() {
    let mut reader = InputReader::new(());
    assert_eq!(reader.read_input_from_buf(), None);
    assert_eq!(reader.read_input(&[0x1b]), Ok(None));
    assert_eq!(reader.read_input(b"["), Ok(None));
    assert_eq!(reader.read_input(b"Ab"), Ok(Some(key(KeyCode::Up))));
    assert_eq!(reader.read_input_from_buf(), Some(key(KeyCode::Char('b'))));
    assert_eq!(reader.read_input_from_buf(), None);
}

#[test]
fn the_reader_drops_bytes_that_mean_nothing() {
    let mut reader = InputReader::new(());
    assert_eq!(
        reader.read_input(&[0xff, 0x80, 0x1b, b'[', b'X', b'a']),
        Ok(Some(key(KeyCode::Char('a'))))
    );
    assert_eq!(reader.read_input_from_buf(), None);
    // what is dropped is gone, what is incomplete stays
    assert_eq!(reader.read_input(&[0xff, 0xc3]), Ok(None));
    assert_eq!(reader.read_input(&[0xa9]), Ok(Some(key(KeyCode::Char('é')))));
}

#[test]
fn the_end_of_the_input_is_an_error() {
    let mut reader = InputReader::new(());
    assert_eq!(reader.read_input(&[]), Err(TerminalError::UnexpectedEof));
    assert_eq!(reader.read_input(b"a"), Ok(Some(key(KeyCode::Char('a')))));
}

#[test]
fn the_reader_gives_events_in_the_order_of_their_bytes() {
    let mut bytes = Vec::new();
    bytes.extend_from_slice(b"a");
    bytes.extend_from_slice(&[0x1b, b'[', b'1', b';', b'5', b'A']);
    bytes.extend_from_slice("€".as_bytes());
    bytes.extend_from_slice(b"\x1b[<0;10;5M");
    bytes.extend_from_slice(&[0x7f]);
    let mut reader = InputReader::new(());
    let mut events = vec![reader.read_input(&bytes).unwrap().unwrap()];
    while let Some(input) = reader.read_input_from_buf() {
        events.push(input);
    }
    assert_eq!(events.len(), 5);
    assert_eq!(events[0], key(KeyCode::Char('a')));
    assert_eq!(
        events[1],
        TerminalInput::Key(KeyInput {
            ctrl: true,
            alt: false,
            code: KeyCode::Up
        })
    );
    assert_eq!(events[2], key(KeyCode::Char('€')));
    assert!(matches!(events[3], TerminalInput::Mouse(_)));
    assert_eq!(events[4], key(KeyCode::Backspace));
}

#[test]
fn the_reader_hands_out_its_source() {
    let mut reader = InputReader::new(7u8);
    assert_eq!(*reader.inner(), 7);
    *reader.inner_mut() = 9;
    assert_eq!(*reader.inner(), 9);
}

#[test]
fn would_block_becomes_no_value() {
    let blocked: std::io::Result<u8> = Err(Error::from(ErrorKind::WouldBlock));
    assert_eq!(try_nonblocking(blocked).unwrap(), None);
    let value: std::io::Result<u8> = Ok(3);
    assert_eq!(try_nonblocking(value).unwrap(), Some(3));
    let broken: std::io::Result<u8> = Err(Error::from(ErrorKind::Interrupted));
    assert_eq!(
        try_nonblocking(broken).unwrap_err().kind(),
        ErrorKind::Interrupted
    );
}

#[test]
fn interrupted_becomes_no_value() {
    let interrupted: std::io::Result<u8> = Err(Error::from(ErrorKind::Interrupted));
    assert_eq!(try_uninterrupted(interrupted).unwrap(), None);
    let value: std::io::Result<u8> = Ok(3);
    assert_eq!(try_uninterrupted(value).unwrap(), Some(3));
    let broken: std::io::Result<u8> = Err(Error::from(ErrorKind::WouldBlock));
    assert_eq!(
        try_uninterrupted(broken).unwrap_err().kind(),
        ErrorKind::WouldBlock
    );
}
