//! End-to-end tests of the codec: parsing scenarios, every error kind,
//! header folding and case handling, body framing, and the round trip
//! between serialize and parse.

use http_codec::{Message, MessageKind, Method, ParsingError, ResponseCode};

#[test]
fn scenario_request_basic() {
    let m = Message::parse(b"GET /foo HTTP/1.1\r\nHost: example.com\r\n\r\n").unwrap();
    match &m.kind {
        MessageKind::Request { method, path } => {
            assert_eq!(*method, Method::GET);
            assert_eq!(path.as_str(), "/foo");
        }
        _ => panic!("expected a request"),
    }
    assert_eq!(m.headers.len(), 1);
    assert_eq!(m.headers.get("host").unwrap().as_str(), "example.com");
    assert!(m.get_content().is_none());
}

#[test]
fn scenario_response_with_body() {
    let m = Message::parse(b"HTTP/1.1 404 \r\nContent-Length: 5\r\n\r\nhello").unwrap();
    match &m.kind {
        MessageKind::Response { code } => assert_eq!(code.0, 404),
        _ => panic!("expected a response"),
    }
    assert_eq!(m.headers.get("content-length").unwrap().as_str(), "5");
    assert_eq!(m.get_content().unwrap().as_slice(), b"hello");
}

#[test]
fn method_parse_is_case_insensitive() {
    let m = Message::parse(b"get /x HTTP/1.1\r\n\r\n").unwrap();
    assert!(matches!(
        m.kind,
        MessageKind::Request { method: Method::GET, .. }
    ));
    let m2 = Message::parse(b"dElEtE /x HTTP/1.1\r\n\r\n").unwrap();
    assert!(matches!(
        m2.kind,
        MessageKind::Request { method: Method::DELETE, .. }
    ));
}

#[test]
fn header_keys_collapse_case_insensitively() {
    let mut m = Message::new_request(Method::GET, "/");
    m.set_header("Content-Type", "text/plain");
    assert_eq!(m.headers.get("content-type").unwrap().as_str(), "text/plain");
    let prev = m.set_header("content-type", "application/json");
    assert_eq!(prev.unwrap().as_str(), "text/plain");
    assert_eq!(m.headers.len(), 1);
    assert_eq!(m.headers.get("CONTENT-TYPE").unwrap().as_str(), "application/json");
}

#[test]
fn duplicate_headers_fold_with_comma() {
    let m = Message::parse(b"GET /x HTTP/1.1\r\nX: a\r\nx: b\r\n\r\n").unwrap();
    assert_eq!(m.headers.len(), 1);
    assert_eq!(m.headers.get("x").unwrap().as_str(), "a, b");
}

#[test]
fn no_content_length_means_no_body() {
    let m = Message::parse(b"GET /x HTTP/1.1\r\nHost: h\r\n\r\ntrailing bytes here").unwrap();
    assert!(m.get_content().is_none());
}

#[test]
fn bad_content_length_is_rejected() {
    let r = Message::parse(b"GET /x HTTP/1.1\r\ncontent-length: abc\r\n\r\n");
    assert!(matches!(r, Err(ParsingError::UnparseableContentLength)));
}

#[test]
fn signed_content_length_is_rejected() {
    let r = Message::parse(b"GET /x HTTP/1.1\r\ncontent-length: +5\r\n\r\nhello");
    assert!(matches!(r, Err(ParsingError::UnparseableContentLength)));
}

#[test]
fn truncated_body_is_rejected() {
    let r = Message::parse(b"HTTP/1.1 200 \r\ncontent-length: 10\r\n\r\nhello");
    assert!(matches!(r, Err(ParsingError::ContentTooShort)));
}

#[test]
fn bare_cr_in_first_line_is_rejected() {
    let r = Message::parse(b"GET /x HTTP/1.1\rX\r\n\r\n");
    assert!(matches!(r, Err(ParsingError::IndecipherableRequestLine)));
}

#[test]
fn bare_cr_in_header_is_rejected() {
    let r = Message::parse(b"GET /x HTTP/1.1\r\nHost: a\rb\r\n\r\n");
    assert!(matches!(r, Err(ParsingError::IllegalHeader)));
}

#[test]
fn unknown_verb_is_rejected() {
    let r = Message::parse(b"FETCH /x HTTP/1.1\r\n\r\n");
    assert!(matches!(r, Err(ParsingError::UnknownMethod)));
}

#[test]
fn wrong_protocol_token_is_rejected() {
    let r = Message::parse(b"GET /x HTTP/1.0\r\n\r\n");
    assert!(matches!(r, Err(ParsingError::UnsupportedProtocol)));
}

#[test]
fn missing_protocol_token_is_rejected() {
    let r = Message::parse(b"GET /x\r\n\r\n");
    assert!(matches!(r, Err(ParsingError::UnsupportedProtocol)));
}

#[test]
fn missing_path_is_rejected() {
    let r = Message::parse(b"GET\r\n\r\n");
    assert!(matches!(r, Err(ParsingError::IndecipherableRequestLine)));
}

#[test]
fn extra_request_line_tokens_are_rejected() {
    let r = Message::parse(b"GET /x HTTP/1.1 extra\r\n\r\n");
    assert!(matches!(r, Err(ParsingError::IndecipherableRequestLine)));
}

#[test]
fn response_without_code_is_rejected() {
    let r = Message::parse(b"HTTP/1.1\r\n\r\n");
    assert!(matches!(r, Err(ParsingError::IndecipherableRequestLine)));
}

#[test]
fn non_numeric_response_code_is_rejected() {
    let r = Message::parse(b"HTTP/1.1 abc\r\n\r\n");
    assert!(matches!(r, Err(ParsingError::IndecipherableRequestLine)));
}

#[test]
fn response_reason_tokens_are_ignored() {
    let m = Message::parse(b"HTTP/1.1 200 OK and more words\r\n\r\n").unwrap();
    assert!(matches!(m.kind, MessageKind::Response { code: ResponseCode(200) }));
}

#[test]
fn empty_input_is_rejected() {
    let r = Message::parse(b"");
    assert!(matches!(r, Err(ParsingError::IndecipherableRequestLine)));
}

#[test]
fn missing_colon_in_header_is_rejected() {
    let r = Message::parse(b"GET /x HTTP/1.1\r\nno separator here\r\n\r\n");
    assert!(matches!(r, Err(ParsingError::IllegalHeader)));
}

#[test]
fn leading_whitespace_is_skipped() {
    let m = Message::parse(b"\r\n  \tGET /x HTTP/1.1\r\n\r\n").unwrap();
    assert!(matches!(
        m.kind,
        MessageKind::Request { method: Method::GET, .. }
    ));
}

#[test]
fn header_value_keeps_trailing_whitespace() {
    let m = Message::parse(b"GET /x HTTP/1.1\r\nk: \t padded \r\n\r\n").unwrap();
    assert_eq!(m.headers.get("k").unwrap().as_str(), "padded ");
}

#[test]
fn reason_phrase_lookup() {
    assert_eq!(ResponseCode(200).get_name(), "OK");
    assert_eq!(ResponseCode(404).get_name(), "Not Found");
    assert_eq!(ResponseCode(500).get_name(), "Internal Server Error");
    assert_eq!(ResponseCode(999).get_name(), "");
}

#[test]
fn status_text_is_code_then_reason() {
    assert_eq!(ResponseCode(404).status_text(), "404 Not Found");
    assert_eq!(ResponseCode(999).status_text(), "999 ");
}

#[test]
fn canonical_method_tokens_round_trip() {
    let all = [
        Method::GET,
        Method::HEAD,
        Method::POST,
        Method::PUT,
        Method::DELETE,
        Method::CONNECT,
        Method::OPTIONS,
        Method::TRACE,
        Method::PATCH,
    ];
    for m in all {
        assert_eq!(Method::from_str(m.as_str()).unwrap(), m);
        let lowered = m.as_str().to_lowercase();
        assert_eq!(Method::from_str(&lowered).unwrap(), m);
    }
    assert!(matches!(Method::from_str(""), Err(ParsingError::UnknownMethod)));
    assert!(matches!(Method::from_str("GETX"), Err(ParsingError::UnknownMethod)));
}

#[test]
fn serialize_request_exact_bytes() {
    let m = Message::new_request(Method::GET, "/x");
    assert_eq!(m.serialize().as_slice(), b"GET /x HTTP/1.1\r\n\r\n");
}

#[test]
fn serialize_response_exact_bytes() {
    let m = Message::new_response(ResponseCode(200));
    assert_eq!(m.serialize().as_slice(), b"HTTP/1.1 200 OK\r\n\r\n");
    let unknown = Message::new_response(ResponseCode(999));
    assert_eq!(unknown.serialize().as_slice(), b"HTTP/1.1 999 \r\n\r\n");
}

#[test]
fn serialize_with_body_appends_length_header_and_crlf() {
    let mut m = Message::new_request(Method::POST, "/submit");
    m.set_content(Some(b"hi".to_vec()));
    assert_eq!(m.headers.get("content-length").unwrap().as_str(), "2");
    assert_eq!(
        m.serialize().as_slice(),
        b"POST /submit HTTP/1.1\r\ncontent-length: 2\r\n\r\nhi\r\n"
    );
}

#[test]
fn clearing_body_removes_length_header() {
    let mut m = Message::new_request(Method::POST, "/x");
    m.set_content(Some(b"abc".to_vec()));
    assert!(m.headers.get("content-length").is_some());
    m.set_content(None);
    assert!(m.headers.get("content-length").is_none());
    assert!(m.get_content().is_none());
}

#[test]
fn request_round_trip() {
    let mut m = Message::new_request(Method::POST, "/api/notes/create");
    m.set_header("Content-Type", "application/json");
    m.set_header("Host", "example.com");
    m.set_content(Some(b"{\"text\":\"hi\"}".to_vec()));
    let parsed = Message::parse(&m.serialize()).unwrap();
    match &parsed.kind {
        MessageKind::Request { method, path } => {
            assert_eq!(*method, Method::POST);
            assert_eq!(path.as_str(), "/api/notes/create");
        }
        _ => panic!("expected a request"),
    }
    assert_eq!(parsed.headers.len(), 3);
    assert_eq!(parsed.headers.get("content-type").unwrap().as_str(), "application/json");
    assert_eq!(parsed.headers.get("host").unwrap().as_str(), "example.com");
    assert_eq!(parsed.headers.get("content-length").unwrap().as_str(), "13");
    assert_eq!(parsed.get_content().unwrap().as_slice(), b"{\"text\":\"hi\"}");
}

#[test]
fn response_round_trip() {
    let mut m = Message::new_response(ResponseCode(503));
    m.set_header("Retry-After", "120");
    let parsed = Message::parse(&m.serialize()).unwrap();
    assert!(matches!(parsed.kind, MessageKind::Response { code: ResponseCode(503) }));
    assert_eq!(parsed.headers.len(), 1);
    assert_eq!(parsed.headers.get("retry-after").unwrap().as_str(), "120");
    assert!(parsed.get_content().is_none());
}

#[test]
fn non_ascii_path_survives_the_wire() {
    let m = Message::parse(b"GET /caf\xc3\xa9 HTTP/1.1\r\n\r\n").unwrap();
    match &m.kind {
        MessageKind::Request { path, .. } => assert_eq!(path.as_str(), "/caf\u{e9}"),
        _ => panic!("expected a request"),
    }
    let again = Message::parse(&Message::new_request(Method::GET, "/caf\u{e9}").serialize())
        .unwrap();
    match &again.kind {
        MessageKind::Request { path, .. } => assert_eq!(path.as_str(), "/caf\u{e9}"),
        _ => panic!("expected a request"),
    }
}

#[test]
fn invalid_utf8_first_line_is_rejected() {
    let r = Message::parse(b"GET /\xff HTTP/1.1\r\n\r\n");
    assert!(matches!(r, Err(ParsingError::IndecipherableRequestLine)));
}

#[test]
fn invalid_utf8_header_is_rejected() {
    let r = Message::parse(b"GET /x HTTP/1.1\r\nk: \xff\r\n\r\n");
    assert!(matches!(r, Err(ParsingError::IllegalHeader)));
}

#[test]
fn lowercasing_touches_only_ascii() {
    let mut m = Message::new_request(Method::GET, "/");
    m.set_header("X-\u{d6}-Key", "v");
    assert_eq!(m.headers.get("x-\u{d6}-key").unwrap().as_str(), "v");
    assert!(m.headers.get("x-\u{f6}-key").is_none());
}

#[test]
fn header_entries_keep_insertion_order() {
    let mut m = Message::new_request(Method::GET, "/");
    m.set_header("B", "2");
    m.set_header("A", "1");
    m.set_header("b", "3");
    assert_eq!(m.headers.len(), 2);
    assert_eq!(m.headers.key_at(0).as_str(), "b");
    assert_eq!(m.headers.value_at(0).as_str(), "3");
    assert_eq!(m.headers.key_at(1).as_str(), "a");
    assert_eq!(m.headers.value_at(1).as_str(), "1");
}

#[test]
fn remove_header_returns_previous_value() {
    let mut m = Message::new_request(Method::GET, "/");
    m.set_header("Accept", "text/html");
    assert_eq!(m.remove_header("ACCEPT").unwrap().as_str(), "text/html");
    assert!(m.remove_header("accept").is_none());
    assert_eq!(m.headers.len(), 0);
}

#[test]
fn body_bytes_can_be_patched_in_place() {
    let mut m = Message::new_request(Method::PUT, "/x");
    m.set_content(Some(b"abc".to_vec()));
    assert!(m.get_content_mut(1, b'X'));
    assert_eq!(m.get_content().unwrap().as_slice(), b"aXc");
    assert_eq!(m.headers.get("content-length").unwrap().as_str(), "3");
    assert!(!m.get_content_mut(3, b'Y'));
    let mut empty = Message::new_request(Method::GET, "/");
    assert!(!empty.get_content_mut(0, b'Z'));
}

#[test]
fn declared_length_leaves_trailing_bytes_unread() {
    let m = Message::parse(b"HTTP/1.1 200 \r\ncontent-length: 3\r\n\r\nabcdef").unwrap();
    assert_eq!(m.get_content().unwrap().as_slice(), b"abc");
}
