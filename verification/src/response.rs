//! HTTP/1.1 response serialization and the client-side response parse that
//! mirrors it: status line, headers in insertion order, a Content-Length
//! header always computed from the body, a blank line, then the body bytes.

use vstd::prelude::*;

use crate::bytes::{
    all_digits, append_bytes, copy_bytes, digits_val, encode_decimal, eq_ignore_case,
    eq_ignore_ascii_case, find_byte, find_crlf, parse_decimal, spec_decimal, spec_find_byte,
    spec_find_crlf, subrange_vec, CR, LF, SP,
};
use crate::request::{
    headers_view, is_content_length_key, opt_nat, parse_headers, spec_parse_headers, HttpRequest,
    ParseError, ReqModel,
};

verus! {

/// The mathematical shape of a response about to be written.
#[verifier::ext_equal]
pub ghost struct RespModel {
    pub status_code: nat,
    pub status_message: Seq<u8>,
    pub headers: Seq<(Seq<u8>, Seq<u8>)>,
    pub body: Seq<u8>,
}

/// A response under construction. Its headers hold unique keys (up to ASCII
/// case); `set_header` keeps that so. The serializer computes Content-Length
/// from the body, overriding any entry by that name.
#[derive(Debug)]
pub struct HttpResponse {
    pub status_code: u32,
    pub status_message: Vec<u8>,
    pub headers: Vec<(Vec<u8>, Vec<u8>)>,
    pub body: Vec<u8>,
}

impl View for HttpResponse {
    type V = RespModel;

    open spec fn view(&self) -> RespModel {
        RespModel {
            status_code: self.status_code as nat,
            status_message: self.status_message@,
            headers: headers_view(self.headers@),
            body: self.body@,
        }
    }
}

/// The bytes of "HTTP/1.1", the only version this server speaks.
pub open spec fn spec_http11() -> Seq<u8> {
    seq![72u8, 84u8, 84u8, 80u8, 47u8, 49u8, 46u8, 49u8]
}

/// The bytes of ": ", the separator between a header key and its value.
pub open spec fn spec_colon_sp() -> Seq<u8> {
    seq![58u8, 32u8]
}

pub open spec fn spec_crlf() -> Seq<u8> {
    seq![13u8, 10u8]
}

/// The bytes of "Content-Length" as the serializer spells it.
pub open spec fn spec_content_length_canon() -> Seq<u8> {
    seq![67u8, 111u8, 110u8, 116u8, 101u8, 110u8, 116u8, 45u8, 76u8, 101u8, 110u8, 103u8, 116u8, 104u8]
}

/// The bytes of "OK".
pub open spec fn spec_ok_msg() -> Seq<u8> {
    seq![79u8, 75u8]
}

/// The bytes of "Bad Request".
pub open spec fn spec_bad_request_msg() -> Seq<u8> {
    seq![66u8, 97u8, 100u8, 32u8, 82u8, 101u8, 113u8, 117u8, 101u8, 115u8, 116u8]
}

/// The server-injected headers: `Server: rust`.
pub open spec fn spec_default_headers() -> Seq<(Seq<u8>, Seq<u8>)> {
    seq![(seq![83u8, 101u8, 114u8, 118u8, 101u8, 114u8], seq![114u8, 117u8, 115u8, 116u8])]
}

/// The example handler's own header: `Some-Header: ASdf`.
pub open spec fn spec_handler_headers() -> Seq<(Seq<u8>, Seq<u8>)> {
    seq![
        (
            seq![83u8, 111u8, 109u8, 101u8, 45u8, 72u8, 101u8, 97u8, 100u8, 101u8, 114u8],
            seq![65u8, 83u8, 100u8, 102u8],
        ),
    ]
}

pub fn http11_bytes() -> (r: Vec<u8>)
    ensures
        r@ == spec_http11(),
{
    let mut r: Vec<u8> = Vec::new();
    r.push(72);
    r.push(84);
    r.push(84);
    r.push(80);
    r.push(47);
    r.push(49);
    r.push(46);
    r.push(49);
    proof {
        assert(r@ =~= spec_http11());
    }
    r
}

pub fn colon_sp_bytes() -> (r: Vec<u8>)
    ensures
        r@ == spec_colon_sp(),
{
    let mut r: Vec<u8> = Vec::new();
    r.push(58);
    r.push(32);
    proof {
        assert(r@ =~= spec_colon_sp());
    }
    r
}

pub fn content_length_canon_bytes() -> (r: Vec<u8>)
    ensures
        r@ == spec_content_length_canon(),
{
    let mut r: Vec<u8> = Vec::new();
    r.push(67);
    r.push(111);
    r.push(110);
    r.push(116);
    r.push(101);
    r.push(110);
    r.push(116);
    r.push(45);
    r.push(76);
    r.push(101);
    r.push(110);
    r.push(103);
    r.push(116);
    r.push(104);
    proof {
        assert(r@ =~= spec_content_length_canon());
    }
    r
}

pub fn ok_msg_bytes() -> (r: Vec<u8>)
    ensures
        r@ == spec_ok_msg(),
{
    let mut r: Vec<u8> = Vec::new();
    r.push(79);
    r.push(75);
    proof {
        assert(r@ =~= spec_ok_msg());
    }
    r
}

pub fn bad_request_msg_bytes() -> (r: Vec<u8>)
    ensures
        r@ == spec_bad_request_msg(),
{
    let mut r: Vec<u8> = Vec::new();
    r.push(66);
    r.push(97);
    r.push(100);
    r.push(32);
    r.push(82);
    r.push(101);
    r.push(113);
    r.push(117);
    r.push(101);
    r.push(115);
    r.push(116);
    proof {
        assert(r@ =~= spec_bad_request_msg());
    }
    r
}

/// The server-injected headers as a fresh vector.
pub fn default_headers() -> (r: Vec<(Vec<u8>, Vec<u8>)>)
    ensures
        headers_view(r@) == spec_default_headers(),
{
    let mut k: Vec<u8> = Vec::new();
    k.push(83);
    k.push(101);
    k.push(114);
    k.push(118);
    k.push(101);
    k.push(114);
    let mut v: Vec<u8> = Vec::new();
    v.push(114);
    v.push(117);
    v.push(115);
    v.push(116);
    let mut r: Vec<(Vec<u8>, Vec<u8>)> = Vec::new();
    r.push((k, v));
    proof {
        assert(headers_view(r@) =~~= spec_default_headers());
    }
    r
}

/// The serialized form of a header list: `key<delimiter>value\r\n` for each
/// entry, in order.
pub open spec fn spec_map_to_string(hs: Seq<(Seq<u8>, Seq<u8>)>, delimiter: Seq<u8>) -> Seq<u8>
    decreases hs.len(),
{
    if hs.len() == 0 {
        Seq::empty()
    } else {
        hs.first().0 + delimiter + hs.first().1 + spec_crlf() + spec_map_to_string(
            hs.drop_first(),
            delimiter,
        )
    }
}

/// Serializes a header list, one `key<delimiter>value\r\n` line per entry.
pub fn map_to_string(headers: &Vec<(Vec<u8>, Vec<u8>)>, delimiter: &Vec<u8>) -> (r: Vec<u8>)
    ensures
        r@ == spec_map_to_string(headers_view(headers@), delimiter@),
{
    let ghost hv = headers_view(headers@);
    let mut out: Vec<u8> = Vec::new();
    let mut i: usize = 0;
    proof {
        assert(hv.subrange(0, hv.len() as int) =~= hv);
    }
    while i < headers.len()
        invariant
            i <= headers@.len(),
            hv == headers_view(headers@),
            spec_map_to_string(hv, delimiter@) == out@ + spec_map_to_string(
                hv.subrange(i as int, hv.len() as int),
                delimiter@,
            ),
        decreases headers@.len() - i,
    {
        let ghost before = out@;
        let ghost tail = hv.subrange(i as int, hv.len() as int);
        append_bytes(&mut out, &headers[i].0);
        append_bytes(&mut out, delimiter);
        append_bytes(&mut out, &headers[i].1);
        out.push(CR);
        out.push(LF);
        proof {
            assert(tail.first() == hv[i as int]);
            assert(tail.drop_first() =~= hv.subrange(i + 1 as int, hv.len() as int));
            assert(out@ =~= before + (hv[i as int].0 + delimiter@ + hv[i as int].1 + spec_crlf()));
            assert(before + (hv[i as int].0 + delimiter@ + hv[i as int].1 + spec_crlf())
                + spec_map_to_string(tail.drop_first(), delimiter@) =~= before
                + spec_map_to_string(tail, delimiter@));
        }
        i = i + 1;
    }
    proof {
        assert(hv.subrange(hv.len() as int, hv.len() as int) =~= Seq::<(Seq<u8>, Seq<u8>)>::empty());
        assert(out@ + Seq::<u8>::empty() =~= out@);
    }
    out
}

/// The header list without any Content-Length entry; the serializer computes
/// that header from the body instead.
pub open spec fn spec_remove_cl(hs: Seq<(Seq<u8>, Seq<u8>)>) -> Seq<(Seq<u8>, Seq<u8>)>
    decreases hs.len(),
{
    if hs.len() == 0 {
        Seq::empty()
    } else if is_content_length_key(hs.first().0) {
        spec_remove_cl(hs.drop_first())
    } else {
        seq![hs.first()].add(spec_remove_cl(hs.drop_first()))
    }
}

pub fn remove_cl_headers(headers: &Vec<(Vec<u8>, Vec<u8>)>) -> (r: Vec<(Vec<u8>, Vec<u8>)>)
    ensures
        headers_view(r@) == spec_remove_cl(headers_view(headers@)),
{
    let ghost hv = headers_view(headers@);
    let clk = crate::request::content_length_key_bytes();
    let mut out: Vec<(Vec<u8>, Vec<u8>)> = Vec::new();
    let mut i: usize = 0;
    proof {
        assert(hv.subrange(0, hv.len() as int) =~= hv);
        assert(headers_view(out@) =~= Seq::<(Seq<u8>, Seq<u8>)>::empty());
    }
    while i < headers.len()
        invariant
            i <= headers@.len(),
            hv == headers_view(headers@),
            clk@ == crate::request::spec_content_length_key(),
            spec_remove_cl(hv) == headers_view(out@) + spec_remove_cl(
                hv.subrange(i as int, hv.len() as int),
            ),
        decreases headers@.len() - i,
    {
        let ghost before = headers_view(out@);
        let ghost tail = hv.subrange(i as int, hv.len() as int);
        proof {
            assert(headers_view(headers@)[i as int] == (headers@[i as int].0@, headers@[i as int].1@));
            assert(tail.first() == hv[i as int]);
            assert(tail.drop_first() =~= hv.subrange(i + 1 as int, hv.len() as int));
        }
        if !eq_ignore_ascii_case(&headers[i].0, &clk) {
            let key = copy_bytes(&headers[i].0);
            let value = copy_bytes(&headers[i].1);
            out.push((key, value));
            proof {
                assert(!is_content_length_key(tail.first().0));
                assert(spec_remove_cl(tail) == seq![tail.first()].add(
                    spec_remove_cl(tail.drop_first()),
                ));
                assert(headers_view(out@) =~= before.push(hv[i as int]));
                assert(before.push(hv[i as int]) + spec_remove_cl(tail.drop_first()) =~= before + (
                seq![tail.first()].add(spec_remove_cl(tail.drop_first()))));
            }
        } else {
            proof {
                assert(is_content_length_key(tail.first().0));
                assert(spec_remove_cl(tail) == spec_remove_cl(tail.drop_first()));
            }
        }
        i = i + 1;
    }
    proof {
        assert(hv.subrange(hv.len() as int, hv.len() as int) =~= Seq::<(Seq<u8>, Seq<u8>)>::empty());
        assert(headers_view(out@) + spec_remove_cl(Seq::<(Seq<u8>, Seq<u8>)>::empty())
            =~= headers_view(out@));
    }
    out
}

/// Index of the first header whose key equals `key` up to ASCII case.
pub open spec fn spec_find_key(hs: Seq<(Seq<u8>, Seq<u8>)>, key: Seq<u8>, from: int) -> Option<int>
    decreases hs.len() - from
        when 0 <= from
{
    if from >= hs.len() {
        None
    } else if eq_ignore_case(hs[from].0, key) {
        Some(from)
    } else {
        spec_find_key(hs, key, from + 1)
    }
}

/// A header map update: replace the value of the first key that matches up
/// to ASCII case, keeping that key's spelling, or append a new entry.
pub open spec fn spec_set_header(
    hs: Seq<(Seq<u8>, Seq<u8>)>,
    key: Seq<u8>,
    value: Seq<u8>,
) -> Seq<(Seq<u8>, Seq<u8>)> {
    match spec_find_key(hs, key, 0) {
        Some(i) => hs.update(i, (hs[i].0, value)),
        None => hs.push((key, value)),
    }
}

/// Sets one header, replacing a matching key or appending a new entry.
pub fn set_header(headers: &mut Vec<(Vec<u8>, Vec<u8>)>, key: Vec<u8>, value: Vec<u8>)
    ensures
        headers_view(final(headers)@) == spec_set_header(
            headers_view(old(headers)@),
            key@,
            value@,
        ),
{
    let ghost hv = headers_view(old(headers)@);
    let mut i: usize = 0;
    while i < headers.len()
        invariant
            i <= headers@.len(),
            headers@ == old(headers)@,
            hv == headers_view(headers@),
            spec_find_key(hv, key@, 0) == spec_find_key(hv, key@, i as int),
        decreases headers@.len() - i,
    {
        if eq_ignore_ascii_case(&headers[i].0, &key) {
            let pair = headers.remove(i);
            headers.insert(i, (pair.0, value));
            proof {
                assert(headers_view(headers@) =~= hv.update(i as int, (hv[i as int].0, value@)));
            }
            return ;
        }
        i = i + 1;
    }
    headers.push((key, value));
    proof {
        assert(headers_view(headers@) =~= hv.push((key@, value@)));
    }
}

/// `over` folded onto `base` one entry at a time; on a key match the later
/// value wins, so handler-supplied headers override server-injected ones.
pub open spec fn spec_merge_headers(
    base: Seq<(Seq<u8>, Seq<u8>)>,
    over: Seq<(Seq<u8>, Seq<u8>)>,
) -> Seq<(Seq<u8>, Seq<u8>)>
    decreases over.len(),
{
    if over.len() == 0 {
        base
    } else {
        spec_merge_headers(spec_set_header(base, over.first().0, over.first().1), over.drop_first())
    }
}

/// Merges handler headers over server-injected ones; handler values win.
pub fn merge_headers(base: Vec<(Vec<u8>, Vec<u8>)>, over: &Vec<(Vec<u8>, Vec<u8>)>) -> (r: Vec<
    (Vec<u8>, Vec<u8>),
>)
    ensures
        headers_view(r@) == spec_merge_headers(headers_view(base@), headers_view(over@)),
{
    let ghost hb = headers_view(base@);
    let ghost ho = headers_view(over@);
    let mut r = base;
    let mut i: usize = 0;
    proof {
        assert(ho.subrange(0, ho.len() as int) =~= ho);
    }
    while i < over.len()
        invariant
            i <= over@.len(),
            ho == headers_view(over@),
            spec_merge_headers(headers_view(r@), ho.subrange(i as int, ho.len() as int))
                == spec_merge_headers(hb, ho),
        decreases over@.len() - i,
    {
        let ghost tail = ho.subrange(i as int, ho.len() as int);
        proof {
            assert(tail.first() == ho[i as int]);
            assert(tail.drop_first() =~= ho.subrange(i + 1 as int, ho.len() as int));
        }
        let key = copy_bytes(&over[i].0);
        let value = copy_bytes(&over[i].1);
        set_header(&mut r, key, value);
        i = i + 1;
    }
    proof {
        assert(ho.subrange(ho.len() as int, ho.len() as int) =~= Seq::<(Seq<u8>, Seq<u8>)>::empty());
    }
    r
}

/// The full wire form of a response: status line, its headers except any
/// Content-Length, the computed Content-Length, a blank line, the body.
pub open spec fn spec_serialize_response(r: RespModel) -> Seq<u8> {
    spec_http11() + seq![SP] + spec_decimal(r.status_code) + seq![SP] + r.status_message
        + spec_crlf() + spec_map_to_string(spec_remove_cl(r.headers), spec_colon_sp())
        + spec_content_length_canon() + spec_colon_sp() + spec_decimal(r.body.len()) + spec_crlf()
        + spec_crlf() + r.body
}

/// Serializes a response to its wire bytes.
pub fn serialize_response(resp: &HttpResponse) -> (r: Vec<u8>)
    ensures
        r@ == spec_serialize_response(resp@),
{
    let mut out = http11_bytes();
    out.push(SP);
    let code_digits = encode_decimal(resp.status_code as u64);
    append_bytes(&mut out, &code_digits);
    out.push(SP);
    append_bytes(&mut out, &resp.status_message);
    out.push(CR);
    out.push(LF);
    let kept = remove_cl_headers(&resp.headers);
    let delim = colon_sp_bytes();
    let header_block = map_to_string(&kept, &delim);
    append_bytes(&mut out, &header_block);
    let clk = content_length_canon_bytes();
    append_bytes(&mut out, &clk);
    append_bytes(&mut out, &delim);
    let len_digits = encode_decimal(resp.body.len() as u64);
    append_bytes(&mut out, &len_digits);
    out.push(CR);
    out.push(LF);
    out.push(CR);
    out.push(LF);
    append_bytes(&mut out, &resp.body);
    proof {
        assert(out@ =~= spec_serialize_response(resp@));
    }
    out
}

/// What the example handler answers: 200 OK, its own header, and a body
/// that echoes the request's method and path.
pub open spec fn spec_handler_response(m: ReqModel) -> RespModel {
    RespModel {
        status_code: 200,
        status_message: spec_ok_msg(),
        headers: spec_handler_headers(),
        body: m.method + seq![SP] + m.path,
    }
}

/// The example handler: answers 200 OK with the request's method and path.
pub fn get_response(request: HttpRequest) -> (r: HttpResponse)
    ensures
        r@ == spec_handler_response(request@),
{
    let mut k: Vec<u8> = Vec::new();
    k.push(83);
    k.push(111);
    k.push(109);
    k.push(101);
    k.push(45);
    k.push(72);
    k.push(101);
    k.push(97);
    k.push(100);
    k.push(101);
    k.push(114);
    let mut v: Vec<u8> = Vec::new();
    v.push(65);
    v.push(83);
    v.push(100);
    v.push(102);
    let mut headers: Vec<(Vec<u8>, Vec<u8>)> = Vec::new();
    headers.push((k, v));
    let mut body = copy_bytes(&request.method);
    body.push(SP);
    append_bytes(&mut body, &request.path);
    let resp = HttpResponse { status_code: 200, status_message: ok_msg_bytes(), headers, body };
    proof {
        assert(headers_view(resp.headers@) =~~= spec_handler_headers());
        assert(resp.body@ =~= request@.method + seq![SP] + request@.path);
        assert(resp@ =~= spec_handler_response(request@));
    }
    resp
}

/// The fixed answer to a framing error: 400 Bad Request with an empty body.
pub open spec fn spec_error_response() -> RespModel {
    RespModel {
        status_code: 400,
        status_message: spec_bad_request_msg(),
        headers: Seq::empty(),
        body: Seq::empty(),
    }
}

pub fn error_response() -> (r: HttpResponse)
    ensures
        r@ == spec_error_response(),
{
    let resp = HttpResponse {
        status_code: 400,
        status_message: bad_request_msg_bytes(),
        headers: Vec::new(),
        body: Vec::new(),
    };
    proof {
        assert(resp@ =~= spec_error_response());
        assert(headers_view(resp.headers@) =~= Seq::<(Seq<u8>, Seq<u8>)>::empty());
    }
    resp
}

/// What a handler hands back: a full response, or one of the two outcomes
/// the core maps to a default answer itself.
pub enum HandlerOutcome {
    Response(HttpResponse),
    NotFound,
    ServerError,
}

/// The bytes of "Not Found".
pub open spec fn spec_not_found_msg() -> Seq<u8> {
    seq![78u8, 111u8, 116u8, 32u8, 70u8, 111u8, 117u8, 110u8, 100u8]
}

/// The bytes of "Internal Server Error".
pub open spec fn spec_server_error_msg() -> Seq<u8> {
    seq![
        73u8, 110u8, 116u8, 101u8, 114u8, 110u8, 97u8, 108u8, 32u8, 83u8, 101u8, 114u8, 118u8,
        101u8, 114u8, 32u8, 69u8, 114u8, 114u8, 111u8, 114u8,
    ]
}

/// The default answer to a handler's not-found outcome.
pub open spec fn spec_not_found_response() -> RespModel {
    RespModel {
        status_code: 404,
        status_message: spec_not_found_msg(),
        headers: Seq::empty(),
        body: Seq::empty(),
    }
}

/// The default answer to a handler's server-error outcome.
pub open spec fn spec_server_error_response() -> RespModel {
    RespModel {
        status_code: 500,
        status_message: spec_server_error_msg(),
        headers: Seq::empty(),
        body: Seq::empty(),
    }
}

/// Maps a handler outcome to the response the worker writes: the handler's
/// own response as it stands, or the default 404 or 500 answer.
pub fn resolve_outcome(outcome: HandlerOutcome) -> (r: HttpResponse)
    ensures
        match outcome {
            HandlerOutcome::Response(resp) => r == resp,
            HandlerOutcome::NotFound => r@ == spec_not_found_response(),
            HandlerOutcome::ServerError => r@ == spec_server_error_response(),
        },
{
    match outcome {
        HandlerOutcome::Response(resp) => resp,
        HandlerOutcome::NotFound => {
            let mut msg: Vec<u8> = Vec::new();
            msg.push(78);
            msg.push(111);
            msg.push(116);
            msg.push(32);
            msg.push(70);
            msg.push(111);
            msg.push(117);
            msg.push(110);
            msg.push(100);
            let r = HttpResponse {
                status_code: 404,
                status_message: msg,
                headers: Vec::new(),
                body: Vec::new(),
            };
            proof {
                assert(headers_view(r.headers@) =~= Seq::<(Seq<u8>, Seq<u8>)>::empty());
                assert(r.status_message@ =~= spec_not_found_msg());
                assert(r@ =~= spec_not_found_response());
            }
            r
        },
        HandlerOutcome::ServerError => {
            let mut msg: Vec<u8> = Vec::new();
            msg.push(73);
            msg.push(110);
            msg.push(116);
            msg.push(101);
            msg.push(114);
            msg.push(110);
            msg.push(97);
            msg.push(108);
            msg.push(32);
            msg.push(83);
            msg.push(101);
            msg.push(114);
            msg.push(118);
            msg.push(101);
            msg.push(114);
            msg.push(32);
            msg.push(69);
            msg.push(114);
            msg.push(114);
            msg.push(111);
            msg.push(114);
            let r = HttpResponse {
                status_code: 500,
                status_message: msg,
                headers: Vec::new(),
                body: Vec::new(),
            };
            proof {
                assert(headers_view(r.headers@) =~= Seq::<(Seq<u8>, Seq<u8>)>::empty());
                assert(r.status_message@ =~= spec_server_error_msg());
                assert(r@ =~= spec_server_error_response());
            }
            r
        },
    }
}

/// The mathematical shape of a response as a client reads it back.
#[verifier::ext_equal]
pub ghost struct RespParsedModel {
    pub http_version: Seq<u8>,
    pub status_code: nat,
    pub status_message: Seq<u8>,
    pub headers: Seq<(Seq<u8>, Seq<u8>)>,
    pub content_length: Option<nat>,
    pub body: Seq<u8>,
}

/// A response as a client reads it back off the wire.
#[derive(Debug)]
pub struct ParsedResponse {
    pub http_version: Vec<u8>,
    pub status_code: usize,
    pub status_message: Vec<u8>,
    pub headers: Vec<(Vec<u8>, Vec<u8>)>,
    pub content_length: Option<usize>,
    pub body: Vec<u8>,
}

impl View for ParsedResponse {
    type V = RespParsedModel;

    open spec fn view(&self) -> RespParsedModel {
        RespParsedModel {
            http_version: self.http_version@,
            status_code: self.status_code as nat,
            status_message: self.status_message@,
            headers: headers_view(self.headers@),
            content_length: opt_nat(self.content_length),
            body: self.body@,
        }
    }
}

/// How a client reads a response: a status line split at its first two
/// spaces — the message runs to the end of the line — then headers and a
/// Content-Length body, framed exactly as in a request. A broken status
/// line reads as `MalformedRequestLine`, the start-line error.
pub open spec fn spec_parse_response(s: Seq<u8>) -> Result<RespParsedModel, ParseError> {
    match spec_find_crlf(s, 0) {
        None => Err(ParseError::UnexpectedEof),
        Some(e0) => {
            let line = s.subrange(0, e0);
            match spec_find_byte(line, SP, 0) {
                None => Err(ParseError::MalformedRequestLine),
                Some(i1) => match spec_find_byte(line, SP, i1 + 1) {
                    None => Err(ParseError::MalformedRequestLine),
                    Some(i2) => {
                        let code_tok = line.subrange(i1 + 1, i2);
                        if !(code_tok.len() > 0 && all_digits(code_tok) && digits_val(code_tok)
                            <= usize::MAX) {
                            Err(ParseError::MalformedRequestLine)
                        } else {
                            match spec_parse_headers(s, e0 + 2) {
                                Err(err) => Err(err),
                                Ok(h) => {
                                    let base = RespParsedModel {
                                        http_version: line.subrange(0, i1),
                                        status_code: digits_val(code_tok),
                                        status_message: line.subrange(i2 + 1, line.len() as int),
                                        headers: h.0,
                                        content_length: h.1,
                                        body: Seq::empty(),
                                    };
                                    match h.1 {
                                        Some(k) => if k > 0 {
                                            if h.2 + k <= s.len() {
                                                Ok(
                                                    RespParsedModel {
                                                        body: s.subrange(h.2, h.2 + k),
                                                        ..base
                                                    },
                                                )
                                            } else {
                                                Err(ParseError::TruncatedBody)
                                            }
                                        } else {
                                            Ok(base)
                                        },
                                        None => Ok(base),
                                    }
                                },
                            }
                        }
                    },
                },
            }
        },
    }
}

/// Parses a serialized response as a client would.
pub fn parse_response(s: &Vec<u8>) -> (r: Result<ParsedResponse, ParseError>)
    ensures
        match r {
            Ok(resp) => spec_parse_response(s@) matches Ok(m) && resp@ == m,
            Err(e) => spec_parse_response(s@) matches Err(e2) && e2 == e,
        },
{
    proof {
        assert(s@.len() == s.len());
    }
    let e0 = match find_crlf(s, 0) {
        None => {
            return Err(ParseError::UnexpectedEof);
        },
        Some(e) => e,
    };
    let line = subrange_vec(s, 0, e0);
    let i1 = match find_byte(&line, SP, 0) {
        None => {
            return Err(ParseError::MalformedRequestLine);
        },
        Some(i) => i,
    };
    let i2 = match find_byte(&line, SP, i1 + 1) {
        None => {
            return Err(ParseError::MalformedRequestLine);
        },
        Some(i) => i,
    };
    let code_tok = subrange_vec(&line, i1 + 1, i2);
    let code = match parse_decimal(&code_tok) {
        None => {
            return Err(ParseError::MalformedRequestLine);
        },
        Some(n) => n,
    };
    let (hs, cl, body_start) = match parse_headers(s, e0 + 2) {
        Err(err) => {
            return Err(err);
        },
        Ok(t) => t,
    };
    let body: Vec<u8> = match cl {
        Some(k) => if k > 0 {
            match crate::request::parse_body(s, body_start, k) {
                Err(err) => {
                    return Err(err);
                },
                Ok(b) => b,
            }
        } else {
            Vec::new()
        },
        None => Vec::new(),
    };
    let version = subrange_vec(&line, 0, i1);
    let message = subrange_vec(&line, i2 + 1, line.len());
    let resp = ParsedResponse {
        http_version: version,
        status_code: code,
        status_message: message,
        headers: hs,
        content_length: cl,
        body,
    };
    proof {
        let m = spec_parse_response(s@)->Ok_0;
        assert(resp@ =~= m);
    }
    Ok(resp)
}

} // verus!
