use clcache_server::codec::{
    encode_error_response, encode_hash_response, encode_ok_response, encode_request,
    encode_unknown_response, extract_frame, parse_request, response_body, Request,
};

fn paths_of(req: Option<Request>) -> Vec<Vec<u8>> {
    match req.expect("expected a well-formed request") {
        Request::PathList(ps) => ps,
        Request::Command(_) => panic!("expected a path list"),
    }
}

fn command_of(req: Option<Request>) -> Vec<u8> {
    match req.expect("expected a well-formed request") {
        Request::Command(c) => c,
        Request::PathList(_) => panic!("expected a command"),
    }
}

#[test]
fn parse_single_path() {
    let payload = b"tests/res/1/qjsonrpcservice.h".to_vec();
    let ps = paths_of(parse_request(&payload));
    assert_eq!(ps, vec![b"tests/res/1/qjsonrpcservice.h".to_vec()]);
}

#[test]
fn parse_multiple_paths_keeps_order() {
    let payload = b"C:\\a.h\nC:\\b.h\nC:\\c.h".to_vec();
    let ps = paths_of(parse_request(&payload));
    assert_eq!(
        ps,
        vec![b"C:\\a.h".to_vec(), b"C:\\b.h".to_vec(), b"C:\\c.h".to_vec()]
    );
}

#[test]
fn parse_ignores_empty_lines() {
    let payload = b"a\n\nb\n".to_vec();
    let ps = paths_of(parse_request(&payload));
    assert_eq!(ps, vec![b"a".to_vec(), b"b".to_vec()]);
}

#[test]
fn parse_strips_do_not_monitor_marker() {
    let payload = b"C:\\a.h?\nC:\\b.h".to_vec();
    let ps = paths_of(parse_request(&payload));
    assert_eq!(ps, vec![b"C:\\a.h".to_vec(), b"C:\\b.h".to_vec()]);
}

#[test]
fn parse_empty_payload_is_empty_path_list() {
    let payload = Vec::new();
    let ps = paths_of(parse_request(&payload));
    assert!(ps.is_empty());
}

#[test]
fn parse_command() {
    let payload = b"*clear".to_vec();
    assert_eq!(command_of(parse_request(&payload)), b"clear".to_vec());
    let payload = b"*exit".to_vec();
    assert_eq!(command_of(parse_request(&payload)), b"exit".to_vec());
}

#[test]
fn frame_extraction() {
    assert_eq!(extract_frame(b"abc"), None);
    assert_eq!(extract_frame(b"abc\0"), Some(b"abc".to_vec()));
    assert_eq!(extract_frame(b"abc\0def"), Some(b"abc".to_vec()));
    assert_eq!(extract_frame(b"\0"), Some(Vec::new()));
}

#[test]
fn encode_request_wire_format() {
    let paths = vec![b"C:\\a.h".to_vec(), b"C:\\b.h".to_vec()];
    assert_eq!(encode_request(&paths), b"C:\\a.h\nC:\\b.h\0".to_vec());
    let one = vec![b"x".to_vec()];
    assert_eq!(encode_request(&one), b"x\0".to_vec());
    let none: Vec<Vec<u8>> = Vec::new();
    assert_eq!(encode_request(&none), b"\0".to_vec());
}

#[test]
fn request_round_trip() {
    let paths = vec![b"/srv/a.h".to_vec(), b"/srv/b.h".to_vec(), b"/srv/c.h".to_vec()];
    let message = encode_request(&paths);
    let payload = extract_frame(&message).unwrap();
    assert_eq!(paths_of(parse_request(&payload)), paths);
}

#[test]
fn request_round_trip_with_marker() {
    let paths = vec![b"/srv/a.h?".to_vec(), b"/srv/b.h".to_vec()];
    let message = encode_request(&paths);
    let payload = extract_frame(&message).unwrap();
    assert_eq!(
        paths_of(parse_request(&payload)),
        vec![b"/srv/a.h".to_vec(), b"/srv/b.h".to_vec()]
    );
}

#[test]
fn response_body_drops_only_the_terminator() {
    assert_eq!(response_body(b"aa\nbb\n\0"), b"aa\nbb\n".to_vec());
    assert_eq!(response_body(b"*ok\n"), b"*ok\n".to_vec());
    assert_eq!(response_body(b""), b"".to_vec());
}

#[test]
fn response_wire_formats() {
    let digests = vec![b"aa".to_vec(), b"bb".to_vec()];
    assert_eq!(encode_hash_response(&digests), b"aa\nbb\n\0".to_vec());
    let empty: Vec<Vec<u8>> = Vec::new();
    assert_eq!(encode_hash_response(&empty), b"\0".to_vec());
    assert_eq!(encode_error_response(b"boom"), b"!boom\0".to_vec());
    assert_eq!(encode_ok_response(), b"*ok\n".to_vec());
    assert_eq!(encode_unknown_response(), b"Unknown command\n\0".to_vec());
}

#[test]
fn parse_rejects_non_utf8_payload() {
    let payload = vec![0xffu8, 0xfe, 0x41];
    assert!(parse_request(&payload).is_none());
    let command = vec![b'*', 0xff];
    assert!(parse_request(&command).is_none());
}

#[test]
fn utf8_validator_agrees_with_std() {
    let cases: Vec<Vec<u8>> = vec![
        b"".to_vec(),
        b"plain ascii".to_vec(),
        "caf\u{e9} \u{4e16}\u{754c} \u{1f600}".as_bytes().to_vec(),
        vec![0xc3, 0xa9],
        vec![0xc3],                   // truncated two-byte scalar
        vec![0xc0, 0xaf],             // overlong encoding of '/'
        vec![0xe0, 0x80, 0xaf],       // overlong three-byte encoding
        vec![0xed, 0xa0, 0x80],       // surrogate half
        vec![0xf4, 0x90, 0x80, 0x80], // beyond U+10FFFF
        vec![0xf8, 0x88, 0x80, 0x80], // five-byte pattern
        vec![0x80],                   // stray continuation byte
        vec![0xe2, 0x82],             // truncated three-byte scalar
        vec![0xe2, 0x82, 0xac],       // euro sign
        vec![0xf0, 0x9f, 0x98, 0x80], // emoji
        vec![0x41, 0xff, 0x42],
    ];
    for case in cases {
        assert_eq!(
            clcache_server::codec::is_valid_utf8(&case),
            std::str::from_utf8(&case).is_ok(),
            "disagreement on {:?}",
            case
        );
    }
}
