use m87::frames::{
    encode_resize_frame, initial_pty_size, parse_resize_frame, TerminalEvent,
    TerminalInputScanner,
};

#[test]
fn test_pty_size_parsing() {
    let buf: [u8; 5] = [0xFF, 0x00, 0x18, 0x00, 0x50]; // 24 rows, 80 cols

    let (rows, cols) = initial_pty_size(&buf);

    assert_eq!(rows, 24);
    assert_eq!(cols, 80);
}

#[test]
fn test_pty_size_parsing_large_terminal() {
    let buf: [u8; 5] = [0xFF, 0x00, 0x64, 0x01, 0x00]; // 100 rows, 256 cols

    let (rows, cols) = parse_resize_frame(&buf).unwrap();

    assert_eq!(rows, 100);
    assert_eq!(cols, 256);
}

#[test]
fn test_pty_size_parsing_default_on_invalid() {
    let buf: [u8; 5] = [0x00, 0x00, 0x00, 0x00, 0x00];

    let (rows, cols) = initial_pty_size(&buf);

    assert_eq!(rows, 24);
    assert_eq!(cols, 80);
}

#[test]
fn test_resize_round_trip_small() {
    let frame = encode_resize_frame(24, 80);
    assert_eq!(parse_resize_frame(&frame), Some((24, 80)));
}

#[test]
fn test_resize_round_trip_medium() {
    let frame = encode_resize_frame(50, 120);
    assert_eq!(parse_resize_frame(&frame), Some((50, 120)));
}

#[test]
fn test_resize_round_trip_large() {
    let frame = encode_resize_frame(200, 500);
    assert_eq!(parse_resize_frame(&frame), Some((200, 500)));
}

#[test]
fn test_scanner_passes_plain_bytes_through() {
    let mut scanner = TerminalInputScanner::new();
    let events = scanner.feed(b"ls -la\n");
    assert_eq!(events.len(), 1);
    match &events[0] {
        TerminalEvent::Data(v) => assert_eq!(v.as_slice(), b"ls -la\n"),
        _ => panic!("expected payload"),
    }
}

#[test]
fn test_scanner_parses_inline_resize() {
    // P13's input sequence: typing, a resize to 50x120, more typing
    let mut scanner = TerminalInputScanner::new();
    let mut input: Vec<u8> = Vec::new();
    input.extend_from_slice(b"ls\n");
    input.extend_from_slice(&[0xFF, 0x00, 0x32, 0x00, 0x78]);
    input.extend_from_slice(b"clear\n");
    let events = scanner.feed(&input);
    assert_eq!(events.len(), 3);
    match &events[0] {
        TerminalEvent::Data(v) => assert_eq!(v.as_slice(), b"ls\n"),
        _ => panic!("expected payload"),
    }
    match &events[1] {
        TerminalEvent::Resize(rows, cols) => {
            assert_eq!(*rows, 50);
            assert_eq!(*cols, 120);
        },
        _ => panic!("expected resize"),
    }
    match &events[2] {
        TerminalEvent::Data(v) => assert_eq!(v.as_slice(), b"clear\n"),
        _ => panic!("expected payload"),
    }
}

#[test]
fn test_scanner_reassembles_split_frame() {
    // a frame that spans two network reads is still one resize
    let mut scanner = TerminalInputScanner::new();
    let first = scanner.feed(&[0xFF, 0x00]);
    assert!(first.is_empty());
    let second = scanner.feed(&[0x32, 0x00, 0x78]);
    assert_eq!(second.len(), 1);
    match &second[0] {
        TerminalEvent::Resize(rows, cols) => {
            assert_eq!(*rows, 50);
            assert_eq!(*cols, 120);
        },
        _ => panic!("expected resize"),
    }
}

#[test]
fn test_scanner_keeps_partial_frame_waiting() {
    let mut scanner = TerminalInputScanner::new();
    let events = scanner.feed(&[0xFF]);
    assert!(events.is_empty());
    let events = scanner.feed(&[0x00, 0x18]);
    assert!(events.is_empty());
    let events = scanner.feed(&[0x00, 0x50, b'x']);
    assert_eq!(events.len(), 2);
    match &events[0] {
        TerminalEvent::Resize(rows, cols) => {
            assert_eq!(*rows, 24);
            assert_eq!(*cols, 80);
        },
        _ => panic!("expected resize"),
    }
    match &events[1] {
        TerminalEvent::Data(v) => assert_eq!(v.as_slice(), b"x"),
        _ => panic!("expected payload"),
    }
}
