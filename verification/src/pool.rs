//! The worker-pool configuration and the per-connection decision logic: what
//! a worker answers on the bytes a connection sent, and whether a reader that
//! has not reached the end of its stream should wait for more bytes. The
//! threads themselves, like the sockets, belong to the surrounding program.

use vstd::prelude::*;

use crate::request::{parse_request, spec_parse_request, ParseError};
use crate::response::{
    default_headers, error_response, get_response, merge_headers, serialize_response,
    spec_default_headers, spec_error_response, spec_handler_response, spec_merge_headers,
    spec_serialize_response, HttpResponse, RespModel,
};

verus! {

/// How many workers the surrounding program is to start; the count is fixed
/// at startup.
pub struct ThreadPool {
    pub num_threads: u32,
}

impl ThreadPool {
    pub fn new(num_threads: u32) -> (r: ThreadPool)
        ensures
            r.num_threads == num_threads,
    {
        ThreadPool { num_threads }
    }
}

/// What a worker writes back on the bytes a connection sent: the handler's
/// answer to a well-formed request, a fixed 400 answer to a framing error,
/// in both cases with the server-injected headers merged in (handler values
/// winning) and serialized to wire bytes.
pub open spec fn spec_process_request(s: Seq<u8>) -> Seq<u8> {
    let resp = match spec_parse_request(s) {
        Ok(m) => spec_handler_response(m),
        Err(_) => spec_error_response(),
    };
    spec_serialize_response(
        RespModel { headers: spec_merge_headers(spec_default_headers(), resp.headers), ..resp },
    )
}

/// One worker step without the socket: request bytes in, response bytes out.
pub fn process_request(input: &Vec<u8>) -> (r: Vec<u8>)
    ensures
        r@ == spec_process_request(input@),
{
    let resp = match parse_request(input) {
        Ok(req) => get_response(req),
        Err(_) => error_response(),
    };
    let merged = merge_headers(default_headers(), &resp.headers);
    let full = HttpResponse {
        status_code: resp.status_code,
        status_message: resp.status_message,
        headers: merged,
        body: resp.body,
    };
    let out = serialize_response(&full);
    proof {
        match spec_parse_request(input@) {
            Ok(m) => {
                assert(full@ =~= RespModel {
                    headers: spec_merge_headers(
                        spec_default_headers(),
                        spec_handler_response(m).headers,
                    ),
                    ..spec_handler_response(m)
                });
            },
            Err(_) => {
                assert(full@ =~= RespModel {
                    headers: spec_merge_headers(
                        spec_default_headers(),
                        spec_error_response().headers,
                    ),
                    ..spec_error_response()
                });
            },
        }
    }
    out
}

/// Whether a framing error only means the buffer ends too early, so a reader
/// that has not yet seen the end of its stream should read on rather than
/// answer.
pub fn needs_more_input(e: ParseError) -> (r: bool)
    ensures
        r == (e == ParseError::UnexpectedEof || e == ParseError::TruncatedBody),
{
    match e {
        ParseError::UnexpectedEof => true,
        ParseError::TruncatedBody => true,
        _ => false,
    }
}

} // verus!
