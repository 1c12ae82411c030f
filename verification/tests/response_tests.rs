use minihttp::pool::{needs_more_input, process_request, ThreadPool};
use minihttp::request::{parse_request, ParseError};
use minihttp::response::{
    default_headers, error_response, get_response, map_to_string, merge_headers, parse_response,
    resolve_outcome, serialize_response, set_header, HandlerOutcome, HttpResponse,
};

fn bytes(s: &str) -> Vec<u8> {
    s.as_bytes().to_vec()
}

fn pairs(ps: &[(&str, &str)]) -> Vec<(Vec<u8>, Vec<u8>)> {
    ps.iter().map(|(k, v)| (bytes(k), bytes(v))).collect()
}

#[test]
fn serialize_basic_response() {
    let resp = HttpResponse {
        status_code: 200,
        status_message: bytes("OK"),
        headers: pairs(&[("Server", "rust")]),
        body: bytes("hi"),
    };
    let wire = serialize_response(&resp);
    assert_eq!(
        wire,
        bytes("HTTP/1.1 200 OK\r\nServer: rust\r\nContent-Length: 2\r\n\r\nhi")
    );
}

#[test]
fn serialize_overrides_handler_content_length() {
    let resp = HttpResponse {
        status_code: 200,
        status_message: bytes("OK"),
        headers: pairs(&[("Content-Length", "99"), ("X-A", "1")]),
        body: bytes("abc"),
    };
    let wire = serialize_response(&resp);
    assert_eq!(
        wire,
        bytes("HTTP/1.1 200 OK\r\nX-A: 1\r\nContent-Length: 3\r\n\r\nabc")
    );
}

#[test]
fn map_to_string_joins_each_entry() {
    let hs = pairs(&[("A", "1"), ("B", "2")]);
    let out = map_to_string(&hs, &bytes(": "));
    assert_eq!(out, bytes("A: 1\r\nB: 2\r\n"));
}

#[test]
fn set_header_replaces_matching_key() {
    let mut hs = pairs(&[("Server", "rust"), ("X-A", "1")]);
    set_header(&mut hs, bytes("SERVER"), bytes("mine"));
    assert_eq!(hs, pairs(&[("Server", "mine"), ("X-A", "1")]));
    set_header(&mut hs, bytes("X-B"), bytes("2"));
    assert_eq!(hs, pairs(&[("Server", "mine"), ("X-A", "1"), ("X-B", "2")]));
}

#[test]
fn merge_headers_handler_wins_on_conflict() {
    let merged = merge_headers(
        default_headers(),
        &pairs(&[("server", "handler"), ("X-A", "1")]),
    );
    assert_eq!(merged, pairs(&[("Server", "handler"), ("X-A", "1")]));
}

#[test]
fn get_response_echoes_method_and_path() {
    let req = parse_request(&bytes("GET /hello HTTP/1.1\r\n\r\n")).unwrap();
    let resp = get_response(req);
    assert_eq!(resp.status_code, 200);
    assert_eq!(resp.status_message, bytes("OK"));
    assert_eq!(resp.headers, pairs(&[("Some-Header", "ASdf")]));
    assert_eq!(resp.body, bytes("GET /hello"));
}

#[test]
fn error_response_is_400_bad_request() {
    let resp = error_response();
    assert_eq!(resp.status_code, 400);
    assert_eq!(resp.status_message, bytes("Bad Request"));
    assert_eq!(resp.headers.len(), 0);
    assert_eq!(resp.body.len(), 0);
}

#[test]
fn round_trip_preserves_code_message_headers_body() {
    let resp = HttpResponse {
        status_code: 404,
        status_message: bytes("Not Found"),
        headers: pairs(&[("X-One", "a"), ("Server", "rust")]),
        body: bytes("hello"),
    };
    let wire = serialize_response(&resp);
    let back = parse_response(&wire).unwrap();
    assert_eq!(back.http_version, bytes("HTTP/1.1"));
    assert_eq!(back.status_code, 404);
    assert_eq!(back.status_message, bytes("Not Found"));
    assert_eq!(
        back.headers,
        pairs(&[("X-One", "a"), ("Server", "rust"), ("Content-Length", "5")])
    );
    assert_eq!(back.content_length, Some(5));
    assert_eq!(back.body, bytes("hello"));
}

#[test]
fn round_trip_empty_body() {
    let resp = HttpResponse {
        status_code: 204,
        status_message: bytes("No Content"),
        headers: Vec::new(),
        body: Vec::new(),
    };
    let wire = serialize_response(&resp);
    assert_eq!(wire, bytes("HTTP/1.1 204 No Content\r\nContent-Length: 0\r\n\r\n"));
    let back = parse_response(&wire).unwrap();
    assert_eq!(back.status_code, 204);
    assert_eq!(back.status_message, bytes("No Content"));
    assert_eq!(back.body, bytes(""));
}

#[test]
fn process_request_answers_a_well_formed_request() {
    let input = bytes("GET /hello?x=1 HTTP/1.1\r\nHost: a\r\nContent-Length: 5\r\n\r\nhello");
    let out = process_request(&input);
    assert_eq!(
        out,
        bytes(
            "HTTP/1.1 200 OK\r\nServer: rust\r\nSome-Header: ASdf\r\nContent-Length: 10\r\n\r\nGET /hello"
        )
    );
}

#[test]
fn process_request_answers_400_on_framing_error() {
    let input = bytes("GET /\r\n\r\n");
    let out = process_request(&input);
    assert_eq!(
        out,
        bytes("HTTP/1.1 400 Bad Request\r\nServer: rust\r\nContent-Length: 0\r\n\r\n")
    );
}

#[test]
fn not_found_outcome_maps_to_default_404() {
    let resp = resolve_outcome(HandlerOutcome::NotFound);
    assert_eq!(resp.status_code, 404);
    assert_eq!(resp.status_message, bytes("Not Found"));
    assert_eq!(resp.headers.len(), 0);
    assert_eq!(resp.body.len(), 0);
}

#[test]
fn server_error_outcome_maps_to_default_500() {
    let resp = resolve_outcome(HandlerOutcome::ServerError);
    assert_eq!(resp.status_code, 500);
    assert_eq!(resp.status_message, bytes("Internal Server Error"));
    assert_eq!(resp.headers.len(), 0);
    assert_eq!(resp.body.len(), 0);
}

#[test]
fn handler_response_outcome_passes_through() {
    let resp = resolve_outcome(HandlerOutcome::Response(HttpResponse {
        status_code: 201,
        status_message: bytes("Created"),
        headers: pairs(&[("X-A", "1")]),
        body: bytes("done"),
    }));
    assert_eq!(resp.status_code, 201);
    assert_eq!(resp.status_message, bytes("Created"));
    assert_eq!(resp.headers, pairs(&[("X-A", "1")]));
    assert_eq!(resp.body, bytes("done"));
}

#[test]
fn needs_more_input_only_on_short_buffers() {
    assert!(needs_more_input(ParseError::UnexpectedEof));
    assert!(needs_more_input(ParseError::TruncatedBody));
    assert!(!needs_more_input(ParseError::MalformedRequestLine));
    assert!(!needs_more_input(ParseError::InvalidContentLength));
    assert!(!needs_more_input(ParseError::ConnectionError));
}

#[test]
fn thread_pool_stores_worker_count() {
    let pool = ThreadPool::new(10);
    assert_eq!(pool.num_threads, 10);
}
