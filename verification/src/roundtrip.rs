//! The round trip: a serialized response, read back as a client reads it,
//! yields the same status code, message, header set and body bytes, with the
//! computed Content-Length as the one extra header.

use vstd::prelude::*;

use crate::bytes::{
    all_digits, is_digit, is_ws, lemma_decimal_digits, lemma_find_byte_at, lemma_find_crlf_at,
    lemma_trim_identity, lemma_trim_space_prefix, spec_decimal, spec_find_byte, spec_find_crlf,
    spec_lower, spec_trim, COLON, CR, LF, SP,
};
use crate::request::{
    is_content_length_key, spec_content_length_key, spec_header_entry, spec_parse_headers,
};
use crate::response::{
    spec_colon_sp, spec_content_length_canon, spec_crlf, spec_http11, spec_map_to_string,
    spec_parse_response, spec_remove_cl, spec_serialize_response, RespModel, RespParsedModel,
};

verus! {

/// A header entry that survives the wire unchanged: a key without carriage
/// returns or colons, a value without carriage returns that is already
/// trimmed, and a key other than Content-Length, which the serializer
/// computes itself.
pub open spec fn wire_safe_entry(e: (Seq<u8>, Seq<u8>)) -> bool {
    &&& e.0.len() > 0
    &&& forall|i: int| 0 <= i < e.0.len() ==> e.0[i] != CR && #[trigger] e.0[i] != COLON
    &&& forall|i: int| 0 <= i < e.1.len() ==> #[trigger] e.1[i] != CR
    &&& spec_trim(e.1) == e.1
    &&& !is_content_length_key(e.0)
}

pub open spec fn wire_safe_headers(hs: Seq<(Seq<u8>, Seq<u8>)>) -> bool {
    forall|j: int| 0 <= j < hs.len() ==> wire_safe_entry(#[trigger] hs[j])
}

/// The fixed wire constants contain no carriage return, the version token no
/// space, the canonical Content-Length spelling no colon — and the latter is
/// the Content-Length key up to ASCII case.
proof fn lemma_wire_constants()
    ensures
        spec_http11().len() == 8,
        forall|i: int| 0 <= i < 8 ==> spec_http11()[i] != CR && #[trigger] spec_http11()[i] != SP,
        spec_content_length_canon().len() == 14,
        forall|i: int|
            0 <= i < 14 ==> spec_content_length_canon()[i] != CR
                && #[trigger] spec_content_length_canon()[i] != COLON,
        is_content_length_key(spec_content_length_canon()),
{
    assert forall|i: int| 0 <= i < 8 implies spec_http11()[i] != CR && #[trigger] spec_http11()[i]
        != SP by {
        let b = spec_http11()[i];
    }
    assert forall|i: int| 0 <= i < 14 implies spec_content_length_canon()[i] != CR
        && #[trigger] spec_content_length_canon()[i] != COLON by {
        let b = spec_content_length_canon()[i];
    }
    assert forall|i: int| 0 <= i < 14 implies spec_lower(#[trigger] spec_content_length_canon()[i])
        == spec_lower(spec_content_length_key()[i]) by {
        let b = spec_content_length_canon()[i];
        let c = spec_content_length_key()[i];
    }
}

/// Digits carry no carriage return, space, colon or whitespace.
proof fn lemma_digits_wire_safe(d: Seq<u8>)
    requires
        all_digits(d),
    ensures
        forall|i: int|
            0 <= i < d.len() ==> d[i] != CR && d[i] != SP && #[trigger] d[i] != COLON && !is_ws(
                d[i],
            ),
{
    assert forall|i: int|
        0 <= i < d.len() implies d[i] != CR && d[i] != SP && #[trigger] d[i] != COLON && !is_ws(
        d[i],
    ) by {
        assert(is_digit(d[i]));
    }
}

/// Dropping Content-Length entries changes nothing when none is there.
pub proof fn lemma_remove_cl_identity(hs: Seq<(Seq<u8>, Seq<u8>)>)
    requires
        forall|j: int| 0 <= j < hs.len() ==> !is_content_length_key((#[trigger] hs[j]).0),
    ensures
        spec_remove_cl(hs) == hs,
    decreases hs.len(),
{
    if hs.len() == 0 {
        assert(spec_remove_cl(hs) =~= hs);
    } else {
        assert(hs.first() == hs[0]);
        lemma_remove_cl_identity(hs.drop_first());
        assert(seq![hs.first()].add(hs.drop_first()) =~= hs);
    }
}

/// Parsing one serialized header line: the line ends at its own CRLF, its
/// entry is the key and the trimmed value, and what follows is untouched.
proof fn lemma_parse_one_header_line(s: Seq<u8>, pos: int, key: Seq<u8>, value: Seq<u8>, rest: Seq<
    u8,
>)
    requires
        0 <= pos <= s.len(),
        s.subrange(pos, s.len() as int) == key + spec_colon_sp() + value + spec_crlf() + rest,
        forall|i: int| 0 <= i < key.len() ==> key[i] != CR && #[trigger] key[i] != COLON,
        forall|i: int| 0 <= i < value.len() ==> #[trigger] value[i] != CR,
        spec_trim(value) == value,
    ensures
        spec_find_crlf(s, pos) == Some(pos + key.len() + 2 + value.len()),
        s.subrange(pos, pos + key.len() + 2 + value.len()) == key + spec_colon_sp() + value,
        spec_header_entry(s.subrange(pos, pos + key.len() + 2 + value.len())) matches Some(en)
            && en.0 == key && en.1 == value,
        pos + key.len() + 4 + value.len() <= s.len(),
        s.subrange(pos + key.len() + 4 + value.len(), s.len() as int) == rest,
{
    let line = key + spec_colon_sp() + value;
    let ll = line.len() as int;
    let suffix = s.subrange(pos, s.len() as int);
    assert(ll == key.len() + 2 + value.len());
    assert(suffix.len() == ll + 2 + rest.len());
    assert(forall|j: int| 0 <= j < suffix.len() ==> s[pos + j] == #[trigger] suffix[j]);
    assert(forall|j: int| 0 <= j < ll ==> #[trigger] suffix[j] == line[j]);
    assert(suffix[ll] == CR);
    assert(suffix[ll + 1] == LF);
    assert forall|j: int| 0 <= j < ll implies #[trigger] line[j] != CR by {
        if j < key.len() {
            assert(line[j] == key[j]);
        } else if j < key.len() + 2 {
            assert(line[j] == spec_colon_sp()[j - key.len()]);
        } else {
            assert(line[j] == value[j - key.len() - 2]);
        }
    }
    assert forall|j: int| pos <= j < pos + ll implies s[j] != CR by {
        assert(suffix[j - pos] == line[j - pos]);
        assert(s[j] == suffix[j - pos]);
    }
    assert(s[pos + ll] == suffix[ll]);
    assert(s[pos + ll + 1] == suffix[ll + 1]);
    lemma_find_crlf_at(s, pos, pos + ll);
    let line_sub = s.subrange(pos, pos + ll);
    assert(line_sub =~= line);
    assert(line[key.len() as int] == COLON);
    assert forall|j: int| 0 <= j < key.len() implies line[j] != COLON by {
        assert(line[j] == key[j]);
    }
    lemma_find_byte_at(line, COLON, 0, key.len() as int);
    assert(line.subrange(0, key.len() as int) =~= key);
    assert(line.subrange(key.len() + 1 as int, ll) =~= seq![SP].add(value));
    lemma_trim_space_prefix(value);
    assert(spec_find_byte(line, COLON, 0) == Some(key.len() as int));
    assert(spec_trim(line.subrange(key.len() + 1 as int, line.len() as int)) == value);
    assert(spec_header_entry(line) matches Some(en) && en.0 == key && en.1 == value);
    assert forall|j: int| 0 <= j < rest.len() implies s.subrange(pos + ll + 2, s.len() as int)[j]
        == rest[j] by {
        assert(suffix[ll + 2 + j] == rest[j]);
        assert(s[pos + (ll + 2 + j)] == suffix[ll + 2 + j]);
    }
    assert(s.subrange(pos + ll + 2, s.len() as int) =~= rest);
}

/// Parsing the serialized header block: every entry comes back in order and
/// unchanged, the computed Content-Length arrives as the one extra header
/// and as the content length, and the body starts right after the blank
/// line.
proof fn lemma_parse_headers_of_block(
    s: Seq<u8>,
    pos: int,
    hs: Seq<(Seq<u8>, Seq<u8>)>,
    n: nat,
    body: Seq<u8>,
)
    requires
        0 <= pos <= s.len(),
        s.subrange(pos, s.len() as int) == spec_map_to_string(hs, spec_colon_sp())
            + spec_content_length_canon() + spec_colon_sp() + spec_decimal(n) + spec_crlf()
            + spec_crlf() + body,
        wire_safe_headers(hs),
        n <= usize::MAX,
    ensures
        spec_parse_headers(s, pos) matches Ok(h) && h.0 == hs.push(
            (spec_content_length_canon(), spec_decimal(n)),
        ) && h.1 == Some(n) && h.2 == s.len() - body.len(),
    decreases hs.len(),
{
    lemma_wire_constants();
    lemma_decimal_digits(n);
    lemma_digits_wire_safe(spec_decimal(n));
    let canon = spec_content_length_canon();
    let digits = spec_decimal(n);
    if hs.len() == 0 {
        let rest = spec_crlf() + body;
        assert(spec_map_to_string(hs, spec_colon_sp()) =~= Seq::<u8>::empty());
        assert(s.subrange(pos, s.len() as int) =~= canon + spec_colon_sp() + digits + spec_crlf()
            + rest);
        assert(!is_ws(digits[0]) && !is_ws(digits[digits.len() - 1]));
        lemma_trim_identity(digits);
        lemma_parse_one_header_line(s, pos, canon, digits, rest);
        let p2 = pos + canon.len() + 4 + digits.len();
        assert(s.len() - p2 == rest.len());
        assert(s.subrange(p2, s.len() as int)[0] == CR);
        assert(s.subrange(p2, s.len() as int)[1] == LF);
        assert(s[p2] == CR && s[p2 + 1] == LF);
        lemma_find_crlf_at(s, p2, p2);
        assert(spec_parse_headers(s, p2) matches Ok(h2) && h2.0 == Seq::<(Seq<u8>, Seq<u8>)>::empty()
            && h2.1 == None::<nat> && h2.2 == p2 + 2);
        let e = pos + canon.len() + 2 + digits.len();
        assert(spec_find_crlf(s, pos) == Some(e));
        assert(pos < e && e + 2 <= s.len());
        assert(crate::request::valid_cl_value(digits));
        assert(spec_parse_headers(s, pos) matches Ok(h) && h.0 == seq![(canon, digits)].add(
            Seq::<(Seq<u8>, Seq<u8>)>::empty(),
        ) && h.1 == Some(n) && h.2 == p2 + 2);
        assert(seq![(canon, digits)].add(Seq::<(Seq<u8>, Seq<u8>)>::empty()) =~= hs.push(
            (canon, digits),
        ));
        assert(p2 + 2 == s.len() - body.len());
    } else {
        let e0 = hs.first();
        assert(wire_safe_entry(hs[0]));
        let rest0 = spec_map_to_string(hs.drop_first(), spec_colon_sp()) + canon + spec_colon_sp()
            + digits + spec_crlf() + spec_crlf() + body;
        assert(s.subrange(pos, s.len() as int) =~= e0.0 + spec_colon_sp() + e0.1 + spec_crlf()
            + rest0);
        lemma_parse_one_header_line(s, pos, e0.0, e0.1, rest0);
        let p2 = pos + e0.0.len() + 4 + e0.1.len();
        assert forall|j: int| 0 <= j < hs.drop_first().len() implies wire_safe_entry(
            #[trigger] hs.drop_first()[j],
        ) by {
            assert(hs.drop_first()[j] == hs[j + 1]);
        }
        lemma_parse_headers_of_block(s, p2, hs.drop_first(), n, body);
        let e = pos + e0.0.len() + 2 + e0.1.len();
        assert(spec_find_crlf(s, pos) == Some(e));
        assert(pos < e && e + 2 <= s.len());
        let h2 = spec_parse_headers(s, p2)->Ok_0;
        assert(spec_parse_headers(s, pos) matches Ok(h) && h.0 == seq![(e0.0, e0.1)].add(h2.0)
            && h.1 == Some(n) && h.2 == h2.2);
        assert(seq![(e0.0, e0.1)].add(hs.drop_first().push((canon, digits))) =~= hs.push(
            (canon, digits),
        ));
    }
}

/// Round trip: a serialized response, parsed back as a client parses it,
/// reproduces the status code, the status message, the header set — the
/// response's own entries in order, plus the computed Content-Length — and
/// the body, byte for byte. A response is round-trippable when its message
/// has no carriage return and its headers are wire-safe.
#[verifier::rlimit(80)]
pub proof fn lemma_response_round_trip(r: RespModel)
    requires
        r.status_code <= usize::MAX,
        forall|i: int| 0 <= i < r.status_message.len() ==> #[trigger] r.status_message[i] != CR,
        wire_safe_headers(r.headers),
        r.body.len() <= usize::MAX,
    ensures
        spec_parse_response(spec_serialize_response(r)) matches Ok(p) && p == (RespParsedModel {
            http_version: spec_http11(),
            status_code: r.status_code,
            status_message: r.status_message,
            headers: r.headers.push((spec_content_length_canon(), spec_decimal(r.body.len()))),
            content_length: Some(r.body.len()),
            body: r.body,
        }),
{
    lemma_wire_constants();
    lemma_decimal_digits(r.status_code);
    lemma_digits_wire_safe(spec_decimal(r.status_code));
    lemma_decimal_digits(r.body.len());
    let s = spec_serialize_response(r);
    let code_digits = spec_decimal(r.status_code);
    let dlen = code_digits.len() as int;
    let msg = r.status_message;
    let sl = spec_http11() + seq![SP] + code_digits + seq![SP] + msg;
    let slen = sl.len() as int;
    assert forall|j: int| 0 <= j < r.headers.len() implies !is_content_length_key(
        (#[trigger] r.headers[j]).0,
    ) by {
        assert(wire_safe_entry(r.headers[j]));
    }
    lemma_remove_cl_identity(r.headers);
    let block = spec_map_to_string(r.headers, spec_colon_sp()) + spec_content_length_canon()
        + spec_colon_sp() + spec_decimal(r.body.len()) + spec_crlf() + spec_crlf() + r.body;
    assert(s =~= sl + spec_crlf() + block);
    assert forall|j: int| 0 <= j < slen implies #[trigger] sl[j] != CR by {
        if j < 8 {
            assert(sl[j] == spec_http11()[j]);
        } else if j == 8 {
            assert(sl[j] == SP);
        } else if j < 9 + dlen {
            assert(sl[j] == code_digits[j - 9]);
        } else if j == 9 + dlen {
            assert(sl[j] == SP);
        } else {
            assert(sl[j] == msg[j - 10 - dlen]);
        }
    }
    assert(forall|j: int| 0 <= j < slen ==> s[j] == #[trigger] sl[j]);
    assert(s[slen] == CR && s[slen + 1] == LF);
    lemma_find_crlf_at(s, 0, slen);
    let line = s.subrange(0, slen);
    assert(line =~= sl);
    assert(sl[8] == SP);
    assert(forall|j: int| 0 <= j < 8 ==> #[trigger] sl[j] == spec_http11()[j]);
    lemma_find_byte_at(line, SP, 0, 8);
    assert(sl[9 + dlen] == SP);
    assert forall|j: int| 9 <= j < 9 + dlen implies #[trigger] sl[j] != SP by {
        assert(sl[j] == code_digits[j - 9]);
    }
    lemma_find_byte_at(line, SP, 9, 9 + dlen);
    assert(line.subrange(9, 9 + dlen) =~= code_digits);
    assert(line.subrange(0, 8) =~= spec_http11());
    assert(line.subrange(9 + dlen + 1, slen) =~= msg);
    assert(s.subrange(slen + 2, s.len() as int) =~= block);
    lemma_parse_headers_of_block(s, slen + 2, r.headers, r.body.len(), r.body);
    let h = spec_parse_headers(s, slen + 2)->Ok_0;
    assert(h.2 == s.len() - r.body.len());
    if r.body.len() > 0 {
        assert(s.subrange(h.2, h.2 + r.body.len()) =~= r.body);
    }
    match spec_parse_response(s) {
        Ok(p) => {
            assert(p =~= RespParsedModel {
                http_version: spec_http11(),
                status_code: r.status_code,
                status_message: r.status_message,
                headers: r.headers.push(
                    (spec_content_length_canon(), spec_decimal(r.body.len())),
                ),
                content_length: Some(r.body.len()),
                body: r.body,
            });
        },
        Err(_) => {
            assert(false);
        },
    }
}

} // verus!
