use m87::header::{forward_header, parse_port_header, parse_stream_header, StreamHeader};

#[test]
fn test_port_header_parses_port_line() {
    assert_eq!(parse_port_header(b"80\n"), Some(80));
    assert_eq!(parse_port_header(b"65535\nrest"), Some(65535));
    assert_eq!(parse_port_header(b" 8080 \npayload"), Some(8080));
}

#[test]
fn test_port_header_rejects_long_header() {
    // a header whose line does not end within 16 bytes is rejected
    assert_eq!(parse_port_header(b"12345678901234567\n"), None);
    assert_eq!(parse_port_header(b"80"), None);
}

#[test]
fn test_port_header_rejects_bad_ports() {
    assert_eq!(parse_port_header(b"0\n"), None);
    assert_eq!(parse_port_header(b"65536\n"), None);
    assert_eq!(parse_port_header(b"-1\n"), None);
    assert_eq!(parse_port_header(b"http\n"), None);
    assert_eq!(parse_port_header(b"\n"), None);
}

#[test]
fn test_stream_header_forms() {
    assert!(matches!(parse_stream_header(b"8080"), StreamHeader::Forward(8080)));
    match parse_stream_header(b"EXEC {\"command\":\"ls\"}") {
        StreamHeader::Exec(rest) => assert_eq!(rest.as_slice(), b"{\"command\":\"ls\"}"),
        _ => panic!("expected an exec header"),
    }
    assert!(matches!(parse_stream_header(b"TERM"), StreamHeader::Term(None)));
    match parse_stream_header(b"TERM xterm") {
        StreamHeader::Term(Some(name)) => assert_eq!(name.as_slice(), b"xterm"),
        _ => panic!("expected a terminal header"),
    }
    assert!(matches!(parse_stream_header(b"LOGS"), StreamHeader::Logs));
    assert!(matches!(parse_stream_header(b"METRICS"), StreamHeader::Metrics));
    match parse_stream_header(b"FS list {}") {
        StreamHeader::Fs(rest) => assert_eq!(rest.as_slice(), b"list {}"),
        _ => panic!("expected a filesystem header"),
    }
}

#[test]
fn test_stream_header_unknown_closes() {
    assert!(matches!(parse_stream_header(b"HELLO"), StreamHeader::Unknown));
    assert!(matches!(parse_stream_header(b""), StreamHeader::Unknown));
    let long = vec![b'A'; 300];
    assert!(matches!(parse_stream_header(&long), StreamHeader::Unknown));
}

#[test]
fn test_forward_header_round_trip() {
    // the header the proxy writes parses back to the same port
    for port in [1u16, 80, 8080, 65535] {
        let header = forward_header(port);
        assert_eq!(parse_port_header(&header), Some(port));
    }
    assert_eq!(forward_header(80).as_slice(), b"80\n");
}
