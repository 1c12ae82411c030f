use minihttp::request::{header_lookup, parse_path_and_query, parse_request, ParseError};

fn bytes(s: &str) -> Vec<u8> {
    s.as_bytes().to_vec()
}

#[test]
fn scenario_full_request() {
    let input = bytes("GET /hello?x=1 HTTP/1.1\r\nHost: a\r\nContent-Length: 5\r\n\r\nhello");
    let req = parse_request(&input).unwrap();
    assert_eq!(req.method, bytes("GET"));
    assert_eq!(req.path, bytes("/hello"));
    assert_eq!(req.raw_query, bytes("x=1"));
    assert_eq!(req.http_version, bytes("HTTP/1.1"));
    assert_eq!(req.body, bytes("hello"));
    assert_eq!(req.content_length, Some(5));
    assert_eq!(req.headers.len(), 2);
    assert_eq!(req.headers[0], (bytes("Host"), bytes("a")));
    assert_eq!(req.headers[1], (bytes("Content-Length"), bytes("5")));
    assert_eq!(header_lookup(&req.headers, &bytes("Host")), Some(bytes("a")));
}

#[test]
fn scenario_no_content_length() {
    let input = bytes("GET / HTTP/1.1\r\n\r\n");
    let req = parse_request(&input).unwrap();
    assert_eq!(req.method, bytes("GET"));
    assert_eq!(req.path, bytes("/"));
    assert_eq!(req.raw_query, bytes(""));
    assert_eq!(req.body, bytes(""));
    assert_eq!(req.content_length, None);
    assert_eq!(req.headers.len(), 0);
}

#[test]
fn scenario_truncated_body() {
    let input = bytes("GET / HTTP/1.1\r\nContent-Length: 10\r\n\r\nabcd");
    assert_eq!(parse_request(&input).unwrap_err(), ParseError::TruncatedBody);
}

#[test]
fn content_length_negative() {
    let input = bytes("GET / HTTP/1.1\r\nContent-Length: -1\r\n\r\n");
    assert_eq!(
        parse_request(&input).unwrap_err(),
        ParseError::InvalidContentLength
    );
}

#[test]
fn content_length_non_numeric() {
    let input = bytes("GET / HTTP/1.1\r\nContent-Length: abc\r\n\r\n");
    assert_eq!(
        parse_request(&input).unwrap_err(),
        ParseError::InvalidContentLength
    );
}

#[test]
fn content_length_empty_value() {
    let input = bytes("GET / HTTP/1.1\r\nContent-Length:\r\n\r\n");
    assert_eq!(
        parse_request(&input).unwrap_err(),
        ParseError::InvalidContentLength
    );
}

#[test]
fn malformed_request_line_two_tokens() {
    let input = bytes("GET /\r\n\r\n");
    assert_eq!(
        parse_request(&input).unwrap_err(),
        ParseError::MalformedRequestLine
    );
}

#[test]
fn malformed_request_line_one_token() {
    let input = bytes("GET\r\n\r\n");
    assert_eq!(
        parse_request(&input).unwrap_err(),
        ParseError::MalformedRequestLine
    );
}

#[test]
fn body_takes_exactly_content_length() {
    let input = bytes("POST /x HTTP/1.1\r\nContent-Length: 5\r\n\r\nhelloEXTRA");
    let req = parse_request(&input).unwrap();
    assert_eq!(req.body, bytes("hello"));
    assert_eq!(req.body.len(), 5);
}

#[test]
fn content_length_zero_gives_empty_body() {
    let input = bytes("POST /x HTTP/1.1\r\nContent-Length: 0\r\n\r\n");
    let req = parse_request(&input).unwrap();
    assert_eq!(req.body, bytes(""));
    assert_eq!(req.content_length, Some(0));
}

#[test]
fn header_lookup_is_case_insensitive() {
    let input = bytes("GET / HTTP/1.1\r\nCONTENT-LENGTH: 3\r\n\r\nabc");
    let req = parse_request(&input).unwrap();
    assert_eq!(req.body, bytes("abc"));
    // the original spelling is preserved in the entry itself
    assert_eq!(req.headers[0].0, bytes("CONTENT-LENGTH"));
    // while lookup matches any spelling
    let v1 = header_lookup(&req.headers, &bytes("content-length"));
    let v2 = header_lookup(&req.headers, &bytes("Content-Length"));
    let v3 = header_lookup(&req.headers, &bytes("CONTENT-LENGTH"));
    assert_eq!(v1, Some(bytes("3")));
    assert_eq!(v2, Some(bytes("3")));
    assert_eq!(v3, Some(bytes("3")));
}

#[test]
fn duplicate_header_last_value_wins() {
    let input = bytes("GET / HTTP/1.1\r\nHost: a\r\nHost: b\r\n\r\n");
    let req = parse_request(&input).unwrap();
    assert_eq!(req.headers.len(), 2);
    assert_eq!(header_lookup(&req.headers, &bytes("host")), Some(bytes("b")));
}

#[test]
fn duplicate_content_length_last_value_wins() {
    let input = bytes("GET / HTTP/1.1\r\nContent-Length: 3\r\nContent-Length: 5\r\n\r\nhello");
    let req = parse_request(&input).unwrap();
    assert_eq!(req.body, bytes("hello"));
    assert_eq!(req.content_length, Some(5));
}

#[test]
fn header_line_without_colon_is_ignored() {
    let input = bytes("GET / HTTP/1.1\r\nnocolonhere\r\nHost: a\r\n\r\n");
    let req = parse_request(&input).unwrap();
    assert_eq!(req.headers.len(), 1);
    assert_eq!(req.headers[0], (bytes("Host"), bytes("a")));
}

#[test]
fn header_value_is_trimmed() {
    let input = bytes("GET / HTTP/1.1\r\nHost:   spaced \r\n\r\n");
    let req = parse_request(&input).unwrap();
    assert_eq!(req.headers[0], (bytes("Host"), bytes("spaced")));
}

#[test]
fn missing_blank_line_is_unexpected_eof() {
    let input = bytes("GET / HTTP/1.1\r\nHost: a\r\n");
    assert_eq!(parse_request(&input).unwrap_err(), ParseError::UnexpectedEof);
}

#[test]
fn no_request_line_terminator_is_unexpected_eof() {
    let input = bytes("GET / HTTP/1.1");
    assert_eq!(parse_request(&input).unwrap_err(), ParseError::UnexpectedEof);
}

#[test]
fn query_is_everything_after_first_question_mark() {
    let input = bytes("GET /p?a?b HTTP/1.1\r\n\r\n");
    let req = parse_request(&input).unwrap();
    assert_eq!(req.path, bytes("/p"));
    assert_eq!(req.raw_query, bytes("a?b"));
}

#[test]
fn empty_path_before_query_is_not_an_error() {
    let input = bytes("GET ?x=1 HTTP/1.1\r\n\r\n");
    let req = parse_request(&input).unwrap();
    assert_eq!(req.path, bytes(""));
    assert_eq!(req.raw_query, bytes("x=1"));
}

#[test]
fn parse_path_and_query_splits_at_first_mark() {
    let (p, q) = parse_path_and_query(&bytes("/a?b=c"));
    assert_eq!(p, bytes("/a"));
    assert_eq!(q, bytes("b=c"));
    let (p2, q2) = parse_path_and_query(&bytes("/plain"));
    assert_eq!(p2, bytes("/plain"));
    assert_eq!(q2, bytes(""));
}

#[test]
fn extra_request_line_tokens_are_dropped() {
    let input = bytes("GET / HTTP/1.1 surplus\r\n\r\n");
    let req = parse_request(&input).unwrap();
    assert_eq!(req.method, bytes("GET"));
    assert_eq!(req.path, bytes("/"));
    assert_eq!(req.http_version, bytes("HTTP/1.1"));
}

#[test]
fn binary_body_passes_through() {
    let mut input = bytes("PUT /bin HTTP/1.1\r\nContent-Length: 4\r\n\r\n");
    input.extend_from_slice(&[0u8, 255u8, 13u8, 10u8]);
    let req = parse_request(&input).unwrap();
    assert_eq!(req.body, vec![0u8, 255u8, 13u8, 10u8]);
}
