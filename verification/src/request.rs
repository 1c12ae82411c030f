//! HTTP/1.1 request framing: turns a complete byte buffer into a structured
//! request, or reports which framing rule the buffer breaks.
//!
//! Framing follows the wire format: a request line of three space-separated
//! tokens, header lines each split at their first colon, a blank line, and a
//! body of exactly `Content-Length` bytes. Header keys are matched without
//! regard to ASCII case and the last occurrence of a duplicated key wins;
//! the entries themselves keep their original spelling and order.

use vstd::prelude::*;

use crate::bytes::{
    all_digits, copy_bytes, digits_val, eq_ignore_case, eq_ignore_ascii_case, find_byte,
    find_crlf, lemma_find_crlf, parse_decimal, spec_find_byte, spec_find_crlf,
    spec_lower, spec_trim, subrange_vec, trim_bytes, COLON, QMARK, SP,
};

verus! {

/// How a byte buffer can fail to frame a single HTTP/1.1 request, plus the
/// transport failure that the surrounding program reports when a socket
/// read or write fails.
#[derive(Clone, Copy, Debug, PartialEq, Eq, Structural)]
pub enum ParseError {
    MalformedRequestLine,
    InvalidContentLength,
    UnexpectedEof,
    TruncatedBody,
    ConnectionError,
}

/// The mathematical shape of a parsed request.
#[verifier::ext_equal]
pub ghost struct ReqModel {
    pub method: Seq<u8>,
    pub path: Seq<u8>,
    pub raw_query: Seq<u8>,
    pub http_version: Seq<u8>,
    pub headers: Seq<(Seq<u8>, Seq<u8>)>,
    pub content_length: Option<nat>,
    pub body: Seq<u8>,
}

/// A parsed request. `headers` keeps every header line in order of arrival
/// with its original key spelling; lookups go through `header_lookup`.
#[derive(Debug)]
pub struct HttpRequest {
    pub method: Vec<u8>,
    pub path: Vec<u8>,
    pub raw_query: Vec<u8>,
    pub http_version: Vec<u8>,
    pub headers: Vec<(Vec<u8>, Vec<u8>)>,
    pub content_length: Option<usize>,
    pub body: Vec<u8>,
}

pub open spec fn headers_view(hs: Seq<(Vec<u8>, Vec<u8>)>) -> Seq<(Seq<u8>, Seq<u8>)> {
    Seq::new(hs.len(), |i: int| (hs[i].0@, hs[i].1@))
}

pub open spec fn opt_nat(o: Option<usize>) -> Option<nat> {
    match o {
        Some(n) => Some(n as nat),
        None => None,
    }
}

impl View for HttpRequest {
    type V = ReqModel;

    open spec fn view(&self) -> ReqModel {
        ReqModel {
            method: self.method@,
            path: self.path@,
            raw_query: self.raw_query@,
            http_version: self.http_version@,
            headers: headers_view(self.headers@),
            content_length: opt_nat(self.content_length),
            body: self.body@,
        }
    }
}

/// The bytes of "content-length".
pub open spec fn spec_content_length_key() -> Seq<u8> {
    seq![99u8, 111u8, 110u8, 116u8, 101u8, 110u8, 116u8, 45u8, 108u8, 101u8, 110u8, 103u8, 116u8, 104u8]
}

pub fn content_length_key_bytes() -> (r: Vec<u8>)
    ensures
        r@ == spec_content_length_key(),
{
    let mut r: Vec<u8> = Vec::new();
    r.push(99);
    r.push(111);
    r.push(110);
    r.push(116);
    r.push(101);
    r.push(110);
    r.push(116);
    r.push(45);
    r.push(108);
    r.push(101);
    r.push(110);
    r.push(103);
    r.push(116);
    r.push(104);
    proof {
        assert(r@ =~= spec_content_length_key());
    }
    r
}

pub open spec fn is_content_length_key(k: Seq<u8>) -> bool {
    eq_ignore_case(k, spec_content_length_key())
}

/// A Content-Length value the parser accepts: a nonempty run of decimal
/// digits whose value fits the machine's sizes.
pub open spec fn valid_cl_value(v: Seq<u8>) -> bool {
    v.len() > 0 && all_digits(v) && digits_val(v) <= usize::MAX
}

/// What one header line contributes: the text before the first colon as the
/// key, the text after it, trimmed, as the value; a line without a colon
/// contributes nothing.
pub open spec fn spec_header_entry(line: Seq<u8>) -> Option<(Seq<u8>, Seq<u8>)> {
    match spec_find_byte(line, COLON, 0) {
        None => None,
        Some(c) => Some((line.subrange(0, c), spec_trim(line.subrange(c + 1, line.len() as int)))),
    }
}

/// Parses header lines from position `pos` of `s` up to and including the
/// blank line. Returns the header entries in order, the value of the last
/// well-formed Content-Length header, and the index just past the blank
/// line, where the body starts.
pub open spec fn spec_parse_headers(s: Seq<u8>, pos: int) -> Result<
    (Seq<(Seq<u8>, Seq<u8>)>, Option<nat>, int),
    ParseError,
>
    decreases s.len() - pos
        when 0 <= pos
{
    match spec_find_crlf(s, pos) {
        None => Err(ParseError::UnexpectedEof),
        Some(e) => if e == pos {
            Ok((Seq::empty(), None, pos + 2))
        } else if pos < e && e + 2 <= s.len() {
            let line = s.subrange(pos, e);
            match spec_header_entry(line) {
                None => spec_parse_headers(s, e + 2),
                Some(entry) => if is_content_length_key(entry.0) && !valid_cl_value(entry.1) {
                    Err(ParseError::InvalidContentLength)
                } else {
                    match spec_parse_headers(s, e + 2) {
                        Err(err) => Err(err),
                        Ok(rest) => Ok(
                            (
                                seq![entry].add(rest.0),
                                match rest.1 {
                                    Some(n) => Some(n),
                                    None => if is_content_length_key(entry.0) {
                                        Some(digits_val(entry.1))
                                    } else {
                                        None
                                    },
                                },
                                rest.2,
                            ),
                        ),
                    }
                },
            }
        } else {
            // never reached: a CRLF found at or after `pos` lies at or after
            // `pos` and two bytes before the end
            Err(ParseError::UnexpectedEof)
        },
    }
}

/// Splits a request line at its first two spaces: method, path-and-query,
/// and version, which runs to the third space or to the end of the line.
/// Fewer than two spaces means fewer than three tokens.
pub open spec fn spec_parse_request_line(line: Seq<u8>) -> Result<
    (Seq<u8>, Seq<u8>, Seq<u8>),
    ParseError,
> {
    match spec_find_byte(line, SP, 0) {
        None => Err(ParseError::MalformedRequestLine),
        Some(i1) => match spec_find_byte(line, SP, i1 + 1) {
            None => Err(ParseError::MalformedRequestLine),
            Some(i2) => {
                let end = match spec_find_byte(line, SP, i2 + 1) {
                    Some(i3) => i3,
                    None => line.len() as int,
                };
                Ok((line.subrange(0, i1), line.subrange(i1 + 1, i2), line.subrange(i2 + 1, end)))
            },
        },
    }
}

/// Splits path-and-query at the first question mark: everything before it
/// is the path, everything after it is the raw query. Both pass through
/// verbatim, and either may be empty.
pub open spec fn spec_split_path_query(paq: Seq<u8>) -> (Seq<u8>, Seq<u8>) {
    match spec_find_byte(paq, QMARK, 0) {
        None => (paq, Seq::empty()),
        Some(i) => (paq.subrange(0, i), paq.subrange(i + 1, paq.len() as int)),
    }
}

/// The whole framing rule: request line, headers up to the blank line, then
/// exactly Content-Length body bytes (none when the header is absent).
pub open spec fn spec_parse_request(s: Seq<u8>) -> Result<ReqModel, ParseError> {
    match spec_find_crlf(s, 0) {
        None => Err(ParseError::UnexpectedEof),
        Some(e0) => match spec_parse_request_line(s.subrange(0, e0)) {
            Err(err) => Err(err),
            Ok(tokens) => match spec_parse_headers(s, e0 + 2) {
                Err(err) => Err(err),
                Ok(hdrs) => {
                    let pq = spec_split_path_query(tokens.1);
                    let base = ReqModel {
                        method: tokens.0,
                        path: pq.0,
                        raw_query: pq.1,
                        http_version: tokens.2,
                        headers: hdrs.0,
                        content_length: hdrs.1,
                        body: Seq::empty(),
                    };
                    match hdrs.1 {
                        Some(k) => if k > 0 {
                            if hdrs.2 + k <= s.len() {
                                Ok(ReqModel { body: s.subrange(hdrs.2, hdrs.2 + k), ..base })
                            } else {
                                Err(ParseError::TruncatedBody)
                            }
                        } else {
                            Ok(base)
                        },
                        None => Ok(base),
                    }
                },
            },
        },
    }
}

/// The value of the last header whose key equals `key` up to ASCII case.
pub open spec fn spec_header_lookup(hs: Seq<(Seq<u8>, Seq<u8>)>, key: Seq<u8>) -> Option<Seq<u8>>
    decreases hs.len(),
{
    if hs.len() == 0 {
        None
    } else if eq_ignore_case(hs.last().0, key) {
        Some(hs.last().1)
    } else {
        spec_header_lookup(hs.drop_last(), key)
    }
}

/// Case-insensitive header lookup; of duplicated keys the last one wins.
pub fn header_lookup(headers: &Vec<(Vec<u8>, Vec<u8>)>, key: &Vec<u8>) -> (r: Option<Vec<u8>>)
    ensures
        match spec_header_lookup(headers_view(headers@), key@) {
            Some(v) => r matches Some(rv) && rv@ == v,
            None => r is None,
        },
{
    let ghost hv = headers_view(headers@);
    let mut i: usize = headers.len();
    proof {
        assert(hv.subrange(0, i as int) =~= hv);
    }
    while i > 0
        invariant
            i <= headers@.len(),
            hv == headers_view(headers@),
            spec_header_lookup(hv, key@) == spec_header_lookup(hv.subrange(0, i as int), key@),
        decreases i,
    {
        proof {
            assert(hv.subrange(0, i as int).last() == hv[i - 1]);
            assert(hv.subrange(0, i as int).drop_last() =~= hv.subrange(0, i - 1));
        }
        if eq_ignore_ascii_case(&headers[i - 1].0, key) {
            let v = subrange_vec(&headers[i - 1].1, 0, headers[i - 1].1.len());
            proof {
                assert(v@ =~= headers@[i - 1].1@);
            }
            return Some(v);
        }
        i = i - 1;
    }
    proof {
        assert(hv.subrange(0, 0) =~= Seq::<(Seq<u8>, Seq<u8>)>::empty());
    }
    None
}

/// Parses the request line into its three tokens.
pub fn parse_request_line(line: &Vec<u8>) -> (r: Result<(Vec<u8>, Vec<u8>, Vec<u8>), ParseError>)
    ensures
        match r {
            Ok(t) => spec_parse_request_line(line@) matches Ok(m) && m.0 == t.0@ && m.1 == t.1@
                && m.2 == t.2@,
            Err(e) => spec_parse_request_line(line@) matches Err(e2) && e2 == e,
        },
{
    proof {
        assert(line@.len() == line.len());
    }
    let i1 = match find_byte(line, SP, 0) {
        None => {
            return Err(ParseError::MalformedRequestLine);
        },
        Some(i) => i,
    };
    let i2 = match find_byte(line, SP, i1 + 1) {
        None => {
            return Err(ParseError::MalformedRequestLine);
        },
        Some(i) => i,
    };
    let end = match find_byte(line, SP, i2 + 1) {
        None => line.len(),
        Some(i) => i,
    };
    let method = subrange_vec(line, 0, i1);
    let paq = subrange_vec(line, i1 + 1, i2);
    let version = subrange_vec(line, i2 + 1, end);
    Ok((method, paq, version))
}

/// Splits path-and-query at the first question mark.
pub fn parse_path_and_query(paq: &Vec<u8>) -> (r: (Vec<u8>, Vec<u8>))
    ensures
        r.0@ == spec_split_path_query(paq@).0,
        r.1@ == spec_split_path_query(paq@).1,
{
    match find_byte(paq, QMARK, 0) {
        None => {
            let path = copy_bytes(paq);
            (path, Vec::new())
        },
        Some(i) => {
            proof {
                assert(paq@.len() == paq.len());
            }
            let path = subrange_vec(paq, 0, i);
            let q = subrange_vec(paq, i + 1, paq.len());
            (path, q)
        },
    }
}

/// Parses the header section that starts at `pos`, through the blank line.
pub fn parse_headers(s: &Vec<u8>, pos: usize) -> (r: Result<
    (Vec<(Vec<u8>, Vec<u8>)>, Option<usize>, usize),
    ParseError,
>)
    requires
        pos <= s@.len(),
    ensures
        match r {
            Ok(t) => spec_parse_headers(s@, pos as int) matches Ok(m) && m.0 == headers_view(t.0@)
                && m.1 == opt_nat(t.1) && m.2 == t.2 as int && t.2 <= s@.len(),
            Err(e) => spec_parse_headers(s@, pos as int) matches Err(e2) && e2 == e,
        },
    decreases s@.len() - pos,
{
    proof {
        assert(s@.len() == s.len());
    }
    let e = match find_crlf(s, pos) {
        None => {
            return Err(ParseError::UnexpectedEof);
        },
        Some(e) => e,
    };
    if e == pos {
        let empty: Vec<(Vec<u8>, Vec<u8>)> = Vec::new();
        proof {
            assert(headers_view(empty@) =~= Seq::<(Seq<u8>, Seq<u8>)>::empty());
        }
        return Ok((empty, None, pos + 2));
    }
    let line = subrange_vec(s, pos, e);
    let c = match find_byte(&line, COLON, 0) {
        None => {
            return parse_headers(s, e + 2);
        },
        Some(c) => c,
    };
    let key = subrange_vec(&line, 0, c);
    let raw_value = subrange_vec(&line, c + 1, line.len());
    let value = trim_bytes(&raw_value);
    proof {
        assert(spec_header_entry(line@) == Some((key@, value@)));
    }
    let clk = content_length_key_bytes();
    let key_is_cl = eq_ignore_ascii_case(&key, &clk);
    let cl_here: Option<usize> = if key_is_cl {
        match parse_decimal(&value) {
            None => {
                return Err(ParseError::InvalidContentLength);
            },
            Some(n) => Some(n),
        }
    } else {
        None
    };
    match parse_headers(s, e + 2) {
        Err(err) => Err(err),
        Ok((rest_headers, rest_cl, body_start)) => {
            let mut hs = rest_headers;
            hs.insert(0, (key, value));
            proof {
                assert(headers_view(hs@) =~= seq![(key@, value@)].add(
                    headers_view(hs@.subrange(1, hs@.len() as int)),
                ));
            }
            let cl = match rest_cl {
                Some(n) => Some(n),
                None => cl_here,
            };
            Ok((hs, cl, body_start))
        },
    }
}

/// Copies the `content_length` body bytes that start at `body_start`, or
/// reports that the buffer ends too early.
pub fn parse_body(s: &Vec<u8>, body_start: usize, content_length: usize) -> (r: Result<
    Vec<u8>,
    ParseError,
>)
    requires
        body_start <= s@.len(),
    ensures
        match r {
            Ok(b) => body_start + content_length <= s@.len() && b@ == s@.subrange(
                body_start as int,
                body_start + content_length,
            ),
            Err(e) => e == ParseError::TruncatedBody && body_start + content_length > s@.len(),
        },
{
    proof {
        assert(s@.len() == s.len());
    }
    if content_length <= s.len() - body_start {
        Ok(subrange_vec(s, body_start, body_start + content_length))
    } else {
        Err(ParseError::TruncatedBody)
    }
}

/// Parses one complete HTTP/1.1 request from `s`: the request line, the
/// headers through the blank line, and exactly Content-Length body bytes.
pub fn parse_request(s: &Vec<u8>) -> (r: Result<HttpRequest, ParseError>)
    ensures
        match r {
            Ok(req) => spec_parse_request(s@) matches Ok(m) && req@ == m,
            Err(e) => spec_parse_request(s@) matches Err(e2) && e2 == e,
        },
{
    proof {
        assert(s@.len() == s.len());
    }
    let e0 = match find_crlf(s, 0) {
        None => {
            return Err(ParseError::UnexpectedEof);
        },
        Some(e) => e,
    };
    let line = subrange_vec(s, 0, e0);
    let (method, paq, version) = match parse_request_line(&line) {
        Err(err) => {
            return Err(err);
        },
        Ok(t) => t,
    };
    let (hs, cl, body_start) = match parse_headers(s, e0 + 2) {
        Err(err) => {
            return Err(err);
        },
        Ok(t) => t,
    };
    let (path, raw_query) = parse_path_and_query(&paq);
    let body: Vec<u8> = match cl {
        Some(k) => if k > 0 {
            match parse_body(s, body_start, k) {
                Err(err) => {
                    return Err(err);
                },
                Ok(b) => b,
            }
        } else {
            Vec::new()
        },
        None => Vec::new(),
    };
    let req = HttpRequest {
        method,
        path,
        raw_query,
        http_version: version,
        headers: hs,
        content_length: cl,
        body,
    };
    proof {
        let m = spec_parse_request(s@)->Ok_0;
        assert(req@ =~= m);
    }
    Ok(req)
}

/// Wherever header parsing succeeds, the body start it reports lies past the
/// position it started from and within the buffer.
pub proof fn lemma_parse_headers_bounds(s: Seq<u8>, pos: int)
    requires
        0 <= pos,
    ensures
        spec_parse_headers(s, pos) matches Ok(h) ==> pos + 2 <= h.2 <= s.len(),
    decreases s.len() - pos,
{
    match spec_find_crlf(s, pos) {
        None => {},
        Some(e) => {
            lemma_find_crlf(s, pos);
            if e != pos {
                lemma_parse_headers_bounds(s, e + 2);
            }
        },
    }
}

/// The body of a well-formed request has exactly the advertised length, and
/// its bytes are exactly the ones that follow the blank header line.
pub proof fn lemma_body_matches_content_length(s: Seq<u8>, m: ReqModel, k: nat)
    requires
        spec_parse_request(s) == Ok::<ReqModel, ParseError>(m),
        m.content_length == Some(k),
    ensures
        m.body.len() == k,
        spec_find_crlf(s, 0) matches Some(e0) && spec_parse_headers(s, e0 + 2) matches Ok(h)
            && h.2 + k <= s.len() && m.body == s.subrange(h.2, h.2 + k),
{
    match spec_find_crlf(s, 0) {
        None => {
            assert(false);
        },
        Some(e0) => {
            lemma_find_crlf(s, 0);
            match spec_parse_headers(s, e0 + 2) {
                Err(_) => {
                    assert(false);
                },
                Ok(h) => {
                    lemma_parse_headers_bounds(s, e0 + 2);
                    if k == 0 {
                        assert(m.body =~= s.subrange(h.2, h.2 + k));
                    }
                },
            }
        },
    }
}

/// Case-insensitive lookup: keys equal up to ASCII case find the same value.
pub proof fn lemma_header_lookup_case_insensitive(
    hs: Seq<(Seq<u8>, Seq<u8>)>,
    k1: Seq<u8>,
    k2: Seq<u8>,
)
    requires
        eq_ignore_case(k1, k2),
    ensures
        spec_header_lookup(hs, k1) == spec_header_lookup(hs, k2),
    decreases hs.len(),
{
    if hs.len() > 0 {
        assert(eq_ignore_case(hs.last().0, k1) == eq_ignore_case(hs.last().0, k2)) by {
            if eq_ignore_case(hs.last().0, k1) {
                assert(forall|i: int|
                    0 <= i < hs.last().0.len() ==> spec_lower(hs.last().0[i]) == spec_lower(k2[i]));
            }
            if eq_ignore_case(hs.last().0, k2) {
                assert(forall|i: int|
                    0 <= i < hs.last().0.len() ==> spec_lower(hs.last().0[i]) == spec_lower(k1[i]));
            }
        }
        lemma_header_lookup_case_insensitive(hs.drop_last(), k1, k2);
    }
}

/// Prepending an entry changes a lookup only where nothing later matches:
/// the last matching entry still wins.
proof fn lemma_header_lookup_cons(e: (Seq<u8>, Seq<u8>), hs: Seq<(Seq<u8>, Seq<u8>)>, key: Seq<u8>)
    ensures
        spec_header_lookup(seq![e].add(hs), key) == (match spec_header_lookup(hs, key) {
            Some(v) => Some(v),
            None => if eq_ignore_case(e.0, key) {
                Some(e.1)
            } else {
                None
            },
        }),
    decreases hs.len(),
{
    let w = seq![e].add(hs);
    if hs.len() == 0 {
        assert(w.last() == e);
        assert(w.drop_last() =~= Seq::<(Seq<u8>, Seq<u8>)>::empty());
        assert(spec_header_lookup(Seq::<(Seq<u8>, Seq<u8>)>::empty(), key) is None);
        assert(hs =~= Seq::<(Seq<u8>, Seq<u8>)>::empty());
    } else {
        assert(w.last() == hs.last());
        if !eq_ignore_case(hs.last().0, key) {
            assert(w.drop_last() =~= seq![e].add(hs.drop_last()));
            lemma_header_lookup_cons(e, hs.drop_last(), key);
        }
    }
}

/// Whenever header parsing succeeds, the content length it reports is
/// exactly the number in the Content-Length header that a case-insensitive,
/// last-wins lookup finds — and there is none exactly when none was sent.
pub proof fn lemma_content_length_is_looked_up(s: Seq<u8>, pos: int)
    requires
        0 <= pos,
    ensures
        spec_parse_headers(s, pos) matches Ok(h) ==> (match spec_header_lookup(
            h.0,
            spec_content_length_key(),
        ) {
            Some(v) => h.1 == Some(digits_val(v)),
            None => h.1 is None,
        }),
    decreases s.len() - pos,
{
    match spec_find_crlf(s, pos) {
        None => {},
        Some(e) => {
            lemma_find_crlf(s, pos);
            if e == pos {
                assert(spec_header_lookup(Seq::empty(), spec_content_length_key()) is None);
            } else {
                lemma_content_length_is_looked_up(s, e + 2);
                let line = s.subrange(pos, e);
                match spec_header_entry(line) {
                    None => {},
                    Some(entry) => {
                        match spec_parse_headers(s, e + 2) {
                            Err(_) => {},
                            Ok(rest) => {
                                lemma_header_lookup_cons(entry, rest.0, spec_content_length_key());
                            },
                        }
                    },
                }
            }
        },
    }
}

/// A request line with fewer than three space-separated tokens — fewer than
/// two spaces — parses to `MalformedRequestLine`, and to nothing else.
pub proof fn lemma_malformed_request_line(s: Seq<u8>, e0: int)
    requires
        spec_find_crlf(s, 0) == Some(e0),
        match spec_find_byte(s.subrange(0, e0), SP, 0) {
            None => true,
            Some(i1) => spec_find_byte(s.subrange(0, e0), SP, i1 + 1) is None,
        },
    ensures
        spec_parse_request(s) == Err::<ReqModel, ParseError>(ParseError::MalformedRequestLine),
{
}

} // verus!
