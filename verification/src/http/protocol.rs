//! The HTTP wire codec: reading one request from captured bytes and
//! rendering one response to bytes.  The caller that owns the stream
//! collects the bytes and writes the rendering out.

use vstd::prelude::*;

verus! {

use crate::error::Error;
use crate::http::header::{HeaderMap, write_pair, drop_pair, find_key, lemma_find_key};
use crate::http::request::HttpRequest;
use crate::http::response::HttpResponse;
use crate::http::status::{Method, StatusCode, status_num, status_reason};
use crate::text::{
    find_pat,
    find_pat_in,
    lemma_find_pat_from,
    split_pat,
    split_on_pat,
    views_of,
    sub_bytes,
    push_bytes,
    utf8_to_string,
    ascii_to_string,
    ascii_view,
    dec_bytes,
    dec_digits,
    lemma_dec_digits_ascii,
    find_char,
    parse_usize_spec,
    push_dec_digits,
};
use crate::url::{split_byte, split_on, query_base, query_rest, query_pairs,
    parse_query_params_and_urldecode};
use vstd::utf8::{valid_utf8, decode_utf8, encode_utf8};

/// The line delimiter of the header block.
pub open spec fn crlf() -> Seq<u8> {
    seq![13u8, 10u8]
}

/// The header-block terminator, and the writer's framing delimiter.
pub open spec fn crlfcrlf() -> Seq<u8> {
    seq![13u8, 10u8, 13u8, 10u8]
}

/// The separator between a header name and its value.
pub open spec fn colon_sp() -> Seq<u8> {
    seq![58u8, 32u8]
}

/// The bytes of the request before the first `CRLF CRLF`, or all of
/// them when the terminator never arrives.
pub open spec fn header_block(b: Seq<u8>) -> Seq<u8> {
    let d = find_pat(b, crlfcrlf());
    if d == -1 {
        b
    } else {
        b.subrange(0, d)
    }
}

/// The bytes of the request after the first `CRLF CRLF`.
pub open spec fn after_block(b: Seq<u8>) -> Seq<u8> {
    let d = find_pat(b, crlfcrlf());
    if d == -1 {
        Seq::<u8>::empty()
    } else {
        b.subrange(d + 4, b.len() as int)
    }
}

/// The verb a request-line token names.
pub open spec fn method_of(tok: Seq<u8>) -> Option<Method> {
    if tok == seq![71u8, 69u8, 84u8] {
        Some(Method::Get)
    } else if tok == seq![80u8, 79u8, 83u8, 84u8] {
        Some(Method::Post)
    } else if tok == seq![80u8, 85u8, 84u8] {
        Some(Method::Put)
    } else if tok == seq![68u8, 69u8, 76u8, 69u8, 84u8, 69u8] {
        Some(Method::Delete)
    } else if tok == seq![80u8, 65u8, 84u8, 67u8, 72u8] {
        Some(Method::Patch)
    } else {
        None
    }
}

/// The bytes of the only accepted version token, `HTTP/1.1`.
pub open spec fn http11() -> Seq<u8> {
    seq![72u8, 84u8, 84u8, 80u8, 47u8, 49u8, 46u8, 49u8]
}

/// Folds the header lines into a pair sequence; `None` when a line
/// lacks the `": "` separator or either side is not text.
pub open spec fn header_pairs(
    ps: Seq<(Seq<char>, Seq<char>)>,
    lines: Seq<Seq<u8>>,
) -> Option<Seq<(Seq<char>, Seq<char>)>>
    decreases lines.len(),
{
    if lines.len() == 0 {
        Some(ps)
    } else {
        let line = lines[0];
        let i = find_pat(line, colon_sp());
        if i == -1 {
            None
        } else {
            let nb = line.subrange(0, i);
            let vb = line.subrange(i + 2, line.len() as int);
            if valid_utf8(nb) && valid_utf8(vb) {
                header_pairs(
                    write_pair(ps, decode_utf8(nb), decode_utf8(vb)),
                    lines.drop_first(),
                )
            } else {
                None
            }
        }
    }
}

/// The advertised content length of a header pair sequence.
pub open spec fn content_length_of(hs: Seq<(Seq<char>, Seq<char>)>) -> Option<usize> {
    let f = find_key(hs, "Content-Length"@);
    if f == -1 {
        None
    } else {
        parse_usize_spec(encode_utf8(hs[f].1))
    }
}

/// What a parsed request holds, as mathematical values.
pub struct ReqParts {
    pub method: Method,
    pub raw: Seq<char>,
    pub headers: Seq<(Seq<char>, Seq<char>)>,
    pub body: Option<Seq<u8>>,
    pub route: Seq<char>,
    pub params: Seq<(Seq<char>, Seq<char>)>,
}

/// Why a request failed to parse, as mathematical values.
pub enum ParseFailure {
    InvalidHeader,
    NoUri,
    InvalidMethod(Seq<char>),
    UnsupportedVersion,
    BodyTooShort(nat, nat),
}

/// What parsing a complete captured request yields: either the parts
/// of the request or the failure, step for step as the parser works.
pub open spec fn spec_parse_request(b: Seq<u8>) -> Result<ReqParts, ParseFailure> {
    let hb = header_block(b);
    if hb.len() == 0 {
        Err(ParseFailure::InvalidHeader)
    } else {
        let lines = split_pat(hb, crlf());
        let toks = split_byte(lines[0], 32);
        match method_of(toks[0]) {
            None => if valid_utf8(toks[0]) {
                Err(ParseFailure::InvalidMethod(decode_utf8(toks[0])))
            } else {
                Err(ParseFailure::InvalidHeader)
            },
            Some(m) => if toks.len() < 2 {
                Err(ParseFailure::NoUri)
            } else if toks.len() < 3 || toks[2] != http11() {
                Err(ParseFailure::UnsupportedVersion)
            } else if !valid_utf8(toks[1]) {
                Err(ParseFailure::InvalidHeader)
            } else {
                match header_pairs(Seq::empty(), lines.drop_first()) {
                    None => Err(ParseFailure::InvalidHeader),
                    Some(hs) => {
                        let uri = decode_utf8(toks[1]);
                        let rest = after_block(b);
                        let body = match content_length_of(hs) {
                            Some(n) => Some(n as nat),
                            None => None,
                        };
                        match body {
                            Some(n) => if n <= rest.len() {
                                Ok(request_parts(m, uri, hs, Some(rest.subrange(0, n as int))))
                            } else {
                                Err(ParseFailure::BodyTooShort(n, rest.len()))
                            },
                            None => Ok(request_parts(m, uri, hs, None)),
                        }
                    },
                }
            },
        }
    }
}

/// Assembles the parts: the route and parameters come from the URI.
pub open spec fn request_parts(
    m: Method,
    uri: Seq<char>,
    hs: Seq<(Seq<char>, Seq<char>)>,
    body: Option<Seq<u8>>,
) -> ReqParts {
    ReqParts {
        method: m,
        raw: uri,
        headers: hs,
        body,
        route: query_base(uri),
        params: if find_char(uri, '?') == -1 {
            Seq::empty()
        } else {
            query_pairs(query_rest(uri))
        },
    }
}

/// Whether a parsed request carries exactly the parts the byte
/// sequence spells.
pub open spec fn parse_gives(b: Seq<u8>, req: HttpRequest) -> bool {
    match spec_parse_request(b) {
        Ok(p) => {
            &&& req.method == p.method
            &&& req.raw_route@ == p.raw
            &&& req.headers.pairs() == p.headers
            &&& req.route@ == p.route
            &&& req.params.pairs() == p.params
            &&& match (req.body, p.body) {
                (Some(v), Some(s)) => v@ == s,
                (None, None) => true,
                _ => false,
            }
        },
        Err(_) => false,
    }
}

/// Whether a returned error is the failure the byte sequence spells.
pub open spec fn parse_fails(b: Seq<u8>, e: Error) -> bool {
    match spec_parse_request(b) {
        Ok(_) => false,
        Err(f) => match (f, e) {
            (ParseFailure::InvalidHeader, Error::InvalidHeader) => true,
            (ParseFailure::NoUri, Error::NoUri) => true,
            (ParseFailure::InvalidMethod(s), Error::InvalidMethod { recieved }) => recieved@ == s,
            (ParseFailure::UnsupportedVersion, Error::UnsupportedVersion) => true,
            (ParseFailure::BodyTooShort(n, g), Error::BodyTooShort { expt, got }) => expt == n
                && got == g,
            _ => false,
        },
    }
}

/// The header-block terminator as bytes.
fn crlfcrlf_vec() -> (r: Vec<u8>)
    ensures
        r@ == crlfcrlf(),
{
    let mut v: Vec<u8> = Vec::new();
    v.push(13);
    v.push(10);
    v.push(13);
    v.push(10);
    proof {
        assert(v@ =~= crlfcrlf());
    }
    v
}

/// The line delimiter as bytes.
fn crlf_vec() -> (r: Vec<u8>)
    ensures
        r@ == crlf(),
{
    let mut v: Vec<u8> = Vec::new();
    v.push(13);
    v.push(10);
    proof {
        assert(v@ =~= crlf());
    }
    v
}

/// The name/value separator as bytes.
fn colon_sp_vec() -> (r: Vec<u8>)
    ensures
        r@ == colon_sp(),
{
    let mut v: Vec<u8> = Vec::new();
    v.push(58);
    v.push(32);
    proof {
        assert(v@ =~= colon_sp());
    }
    v
}

/// The verb a token names, byte for byte.
fn method_from(tok: &[u8]) -> (r: Option<Method>)
    ensures
        r == method_of(tok@),
{
    if tok.len() == 3 && tok[0] == 71 && tok[1] == 69 && tok[2] == 84 {
        proof {
            assert(tok@ =~= seq![71u8, 69u8, 84u8]);
        }
        Some(Method::Get)
    } else if tok.len() == 4 && tok[0] == 80 && tok[1] == 79 && tok[2] == 83 && tok[3] == 84 {
        proof {
            assert(tok@ =~= seq![80u8, 79u8, 83u8, 84u8]);
        }
        Some(Method::Post)
    } else if tok.len() == 3 && tok[0] == 80 && tok[1] == 85 && tok[2] == 84 {
        proof {
            assert(tok@ =~= seq![80u8, 85u8, 84u8]);
        }
        Some(Method::Put)
    } else if tok.len() == 6 && tok[0] == 68 && tok[1] == 69 && tok[2] == 76 && tok[3] == 69
        && tok[4] == 84 && tok[5] == 69 {
        proof {
            assert(tok@ =~= seq![68u8, 69u8, 76u8, 69u8, 84u8, 69u8]);
        }
        Some(Method::Delete)
    } else if tok.len() == 5 && tok[0] == 80 && tok[1] == 65 && tok[2] == 84 && tok[3] == 67
        && tok[4] == 72 {
        proof {
            assert(tok@ =~= seq![80u8, 65u8, 84u8, 67u8, 72u8]);
        }
        Some(Method::Patch)
    } else {
        proof {
            assert(method_of(tok@) is None) by {
                if tok@ == seq![71u8, 69u8, 84u8] {
                    assert(tok@.len() == 3 && tok@[0] == 71 && tok@[1] == 69 && tok@[2] == 84);
                }
                if tok@ == seq![80u8, 79u8, 83u8, 84u8] {
                    assert(tok@.len() == 4 && tok@[0] == 80 && tok@[1] == 79 && tok@[2] == 83
                        && tok@[3] == 84);
                }
                if tok@ == seq![80u8, 85u8, 84u8] {
                    assert(tok@.len() == 3 && tok@[0] == 80 && tok@[1] == 85 && tok@[2] == 84);
                }
                if tok@ == seq![68u8, 69u8, 76u8, 69u8, 84u8, 69u8] {
                    assert(tok@.len() == 6 && tok@[0] == 68 && tok@[1] == 69 && tok@[2] == 76
                        && tok@[3] == 69 && tok@[4] == 84 && tok@[5] == 69);
                }
                if tok@ == seq![80u8, 65u8, 84u8, 67u8, 72u8] {
                    assert(tok@.len() == 5 && tok@[0] == 80 && tok@[1] == 65 && tok@[2] == 84
                        && tok@[3] == 67 && tok@[4] == 72);
                }
            }
        }
        None
    }
}

/// The version token check: `HTTP/1.1`, byte for byte.
fn is_http11(tok: &[u8]) -> (r: bool)
    ensures
        r == (tok@ == http11()),
{
    let r = tok.len() == 8 && tok[0] == 72 && tok[1] == 84 && tok[2] == 84 && tok[3] == 80
        && tok[4] == 47 && tok[5] == 49 && tok[6] == 46 && tok[7] == 49;
    proof {
        if r {
            assert(tok@ =~= http11());
        }
        if tok@ == http11() {
            assert(tok@.len() == 8 && tok@[0] == 72 && tok@[1] == 84 && tok@[2] == 84 && tok@[3]
                == 80 && tok@[4] == 47 && tok@[5] == 49 && tok@[6] == 46 && tok@[7] == 49);
        }
    }
    r
}

/// Reads one complete request from its captured bytes.
///
/// The terminator of the header block is the first `CRLF CRLF`; the
/// body is the `Content-Length` bytes that follow it, and trailing
/// bytes beyond the body are ignored.  On a request whose advertised
/// body has not fully arrived, the error names how many bytes were
/// expected and how many were present, so a caller can fetch the rest
/// and try again.
pub fn parse_request(bytes: &[u8]) -> (r: Result<HttpRequest, Error>)
    ensures
        r is Ok <==> spec_parse_request(bytes@) is Ok,
        r matches Ok(req) ==> parse_gives(bytes@, req),
        r matches Err(e) ==> parse_fails(bytes@, e),
{
    let blen = bytes.len();
    let terminator = crlfcrlf_vec();
    let delim = find_pat_in(bytes, terminator.as_slice());
    proof {
        lemma_find_pat_from(bytes@, crlfcrlf(), 0);
    }
    let (hb, rest) = match delim {
        Some(d) => (sub_bytes(bytes, 0, d), sub_bytes(bytes, d + 4, blen)),
        None => (sub_bytes(bytes, 0, blen), Vec::new()),
    };
    proof {
        assert(hb@ == header_block(bytes@));
        if find_pat(bytes@, crlfcrlf()) == -1 {
            assert(rest@ =~= after_block(bytes@));
        } else {
            assert(rest@ == after_block(bytes@));
        }
        assert(bytes@.subrange(0, bytes@.len() as int) =~= bytes@);
    }
    if hb.len() == 0 {
        return Err(Error::InvalidHeader);
    }
    let line_sep = crlf_vec();
    let lines = split_on_pat(hb.as_slice(), line_sep.as_slice());
    let ghost lv = split_pat(hb@, crlf());
    proof {
        assert(lv.len() >= 1);
        assert(lines@.len() >= 1);
    }
    let toks = split_on(lines[0].as_slice(), 32);
    let ghost tv = split_byte(lv[0], 32);
    proof {
        assert(lines@[0]@ == lv[0]);
        assert(tv.len() >= 1);
        assert(toks@.len() >= 1);
        assert(toks@[0]@ == tv[0]);
    }
    let method = match method_from(toks[0].as_slice()) {
        Some(m) => m,
        None => {
            return match utf8_to_string(toks[0].clone()) {
                Some(s) => Err(Error::InvalidMethod { recieved: s }),
                None => Err(Error::InvalidHeader),
            };
        },
    };
    if toks.len() < 2 {
        return Err(Error::NoUri);
    }
    if toks.len() < 3 {
        return Err(Error::UnsupportedVersion);
    }
    proof {
        assert(toks@[1]@ == tv[1]);
        assert(toks@[2]@ == tv[2]);
    }
    if !is_http11(toks[2].as_slice()) {
        return Err(Error::UnsupportedVersion);
    }
    let raw_route = match utf8_to_string(toks[1].clone()) {
        Some(s) => s,
        None => {
            return Err(Error::InvalidHeader);
        },
    };
    let sep = colon_sp_vec();
    let mut headers = HeaderMap::empty();
    let nlines = lines.len();
    proof {
        assert(lv.drop_first() =~= lv.skip(1));
        assert(header_pairs(Seq::empty(), lv.drop_first()) == header_pairs(
            headers.pairs(),
            lv.skip(1),
        ));
    }
    for k in 1..nlines
        invariant
            nlines == lines@.len(),
            views_of(lines@) == lv,
            sep@ == colon_sp(),
            1 <= k <= nlines,
            hb@ == header_block(bytes@),
            hb@.len() > 0,
            lv == split_pat(hb@, crlf()),
            lv.len() >= 1,
            rest@ == after_block(bytes@),
            tv == split_byte(lv[0], 32),
            tv.len() >= 3,
            method_of(tv[0]) == Some(method),
            tv[2] == http11(),
            valid_utf8(tv[1]),
            raw_route@ == decode_utf8(tv[1]),
            header_pairs(Seq::empty(), lv.drop_first()) == header_pairs(
                headers.pairs(),
                lv.skip(k as int),
            ),
    {
        let ghost hrest = lv.skip(k as int);
        proof {
            assert(hrest[0] == lv[k as int]);
            assert(hrest.drop_first() =~= lv.skip(k + 1));
            assert(lines@[k as int]@ == lv[k as int]);
        }
        let line = &lines[k];
        let i = match find_pat_in(line.as_slice(), sep.as_slice()) {
            Some(i) => i,
            None => {
                return Err(Error::InvalidHeader);
            },
        };
        let llen = line.len();
        proof {
            lemma_find_pat_from(line@, colon_sp(), 0);
            assert(i + 2 <= llen);
        }
        let nb = sub_bytes(line.as_slice(), 0, i);
        let vb = sub_bytes(line.as_slice(), i + 2, llen);
        let name = match utf8_to_string(nb) {
            Some(s) => s,
            None => {
                return Err(Error::InvalidHeader);
            },
        };
        let value = match utf8_to_string(vb) {
            Some(s) => s,
            None => {
                return Err(Error::InvalidHeader);
            },
        };
        headers.insert(name.as_str(), value);
    }
    proof {
        assert(lv.skip(nlines as int) =~= Seq::<Seq<u8>>::empty());
        assert(header_pairs(Seq::empty(), lv.drop_first()) == Some(headers.pairs()));
    }
    let body = match headers.content_length() {
        Some(n) => {
            let avail = rest.len();
            if n <= avail {
                Some(sub_bytes(rest.as_slice(), 0, n))
            } else {
                return Err(Error::BodyTooShort { expt: n, got: avail });
            }
        },
        None => None,
    };
    let (route, params) = parse_query_params_and_urldecode(raw_route.as_str());
    proof {
        assert(spec_parse_request(bytes@) is Ok);
        if find_char(raw_route@, '?') == -1 {
            assert(params.pairs() =~= Seq::<(Seq<char>, Seq<char>)>::empty());
        }
    }
    Ok(
        HttpRequest {
            method,
            raw_route,
            headers,
            body,
            route,
            params,
        },
    )
}

/// One rendered header line: `CRLF name ": " value`.
pub open spec fn line_bytes(p: (Seq<char>, Seq<char>)) -> Seq<u8> {
    crlf() + encode_utf8(p.0) + colon_sp() + encode_utf8(p.1)
}

/// The rendered header lines, in map order.
pub open spec fn headers_bytes(ps: Seq<(Seq<char>, Seq<char>)>) -> Seq<u8>
    decreases ps.len(),
{
    if ps.len() == 0 {
        Seq::<u8>::empty()
    } else {
        headers_bytes(ps.drop_last()) + line_bytes(ps.last())
    }
}

/// The rendered status line: `HTTP/1.1 code reason`.
pub open spec fn status_line_bytes(st: StatusCode) -> Seq<u8> {
    encode_utf8("HTTP/1.1 "@) + dec_digits(status_num(st) as nat) + seq![32u8] + encode_utf8(
        status_reason(st),
    )
}

/// The headers a response goes on the wire with: when a body is
/// present, `Content-Length` is stamped with its exact length; when
/// none is, no `Content-Length` header goes out, whatever the caller
/// set.
pub open spec fn stamped_headers(resp: HttpResponse) -> Seq<(Seq<char>, Seq<char>)> {
    match resp.body {
        Some(b) => write_pair(
            resp.headers.pairs(),
            "Content-Length"@,
            ascii_view(dec_digits(b@.len())),
        ),
        None => drop_pair(resp.headers.pairs(), "Content-Length"@),
    }
}

/// Every byte the writer emits for a response.
pub open spec fn response_bytes(resp: HttpResponse) -> Seq<u8> {
    status_line_bytes(resp.status) + headers_bytes(stamped_headers(resp)) + (match resp.body {
        Some(b) => crlfcrlf() + b@,
        None => Seq::<u8>::empty(),
    }) + crlfcrlf()
}

/// Renders one response to the bytes that go on the wire: the status
/// line, each header on its own line, a blank line and the body when
/// one is present, and a trailing blank line for framing.
#[verifier::rlimit(50)]
pub fn write_response(response: HttpResponse) -> (r: Vec<u8>)
    ensures
        r@ == response_bytes(response),
{
    let ghost orig = response;
    let mut response = response;
    if let Some(b) = &response.body {
        let blen = b.len();
        proof {
            lemma_dec_digits_ascii(blen as nat);
        }
        let digits = ascii_to_string(dec_bytes(blen));
        response.headers.insert(crate::consts::CONTENT_LEN, digits);
    } else {
        response.headers.remove(crate::consts::CONTENT_LEN);
    }
    proof {
        assert(response.headers.pairs() == stamped_headers(orig));
        assert(response.status == orig.status);
    }
    let mut out: Vec<u8> = Vec::new();
    push_bytes(&mut out, "HTTP/1.1 ".as_bytes());
    let code = response.status.code();
    push_dec_digits(code as usize, &mut out);
    out.push(32);
    push_bytes(&mut out, response.status.text_name().as_bytes());
    proof {
        assert(out@ =~= status_line_bytes(orig.status));
    }
    let ghost hs = response.headers.pairs();
    let entries = response.headers.entries();
    let n = entries.len();
    proof {
        assert(hs.take(0) =~= Seq::<(Seq<char>, Seq<char>)>::empty());
    }
    for k in 0..n
        invariant
            n == entries@.len(),
            n == hs.len(),
            forall|i: int|
                0 <= i < n ==> (#[trigger] entries@[i]).0@ == hs[i].0 && entries@[i].1@
                    == hs[i].1,
            out@ == status_line_bytes(orig.status) + headers_bytes(hs.take(k as int)),
    {
        out.push(13);
        out.push(10);
        push_bytes(&mut out, entries[k].0.as_str().as_bytes());
        out.push(58);
        out.push(32);
        push_bytes(&mut out, entries[k].1.as_str().as_bytes());
        proof {
            assert(hs.take(k + 1).drop_last() =~= hs.take(k as int));
            assert(hs.take(k + 1).last() == hs[k as int]);
            assert(out@ =~= status_line_bytes(orig.status) + headers_bytes(hs.take(k + 1)));
        }
    }
    proof {
        assert(hs.take(n as int) =~= hs);
    }
    if let Some(b) = &response.body {
        out.push(13);
        out.push(10);
        out.push(13);
        out.push(10);
        push_bytes(&mut out, b.as_slice());
    }
    out.push(13);
    out.push(10);
    out.push(13);
    out.push(10);
    proof {
        assert(out@ =~= response_bytes(orig));
    }
    out
}


/// A well-formed request: the header block terminates, the request
/// line names a verb, a target and `HTTP/1.1`, every header line is
/// text split by `": "`, and any advertised body has fully arrived.
pub open spec fn well_formed_request(b: Seq<u8>) -> bool {
    let hb = header_block(b);
    let lines = split_pat(hb, crlf());
    let toks = split_byte(lines[0], 32);
    &&& hb.len() > 0
    &&& method_of(toks[0]) is Some
    &&& toks.len() >= 3
    &&& toks[2] == http11()
    &&& valid_utf8(toks[1])
    &&& header_pairs(Seq::empty(), lines.drop_first()) is Some
    &&& (match header_pairs(Seq::empty(), lines.drop_first()) {
        Some(hs) => match content_length_of(hs) {
            Some(n) => n <= after_block(b).len(),
            None => true,
        },
        None => false,
    })
}

/// Parsing succeeds on every well-formed request, a body is present
/// exactly when `Content-Length` announces one, and then the body
/// holds exactly that many bytes.
pub proof fn lemma_well_formed_parses(b: Seq<u8>)
    requires
        well_formed_request(b),
    ensures
        spec_parse_request(b) is Ok,
        match spec_parse_request(b) {
            Ok(p) => {
                &&& (p.body is Some <==> content_length_of(p.headers) is Some)
                &&& match (p.body, content_length_of(p.headers)) {
                    (Some(body), Some(n)) => body.len() == n,
                    _ => true,
                }
            },
            Err(_) => false,
        },
{
}

/// The rendered header line of `Content-Length: n`.
pub open spec fn content_length_line(n: nat) -> Seq<u8> {
    line_bytes(("Content-Length"@, ascii_view(dec_digits(n))))
}

/// Each pair's rendered line sits contiguously in the rendered block.
proof fn lemma_headers_bytes_contain(ps: Seq<(Seq<char>, Seq<char>)>, j: int)
    requires
        0 <= j < ps.len(),
    ensures
        exists|off: int|
            0 <= off && off + line_bytes(ps[j]).len() <= headers_bytes(ps).len()
                && #[trigger] headers_bytes(ps).subrange(off, off + line_bytes(ps[j]).len() as int)
                == line_bytes(ps[j]),
    decreases ps.len(),
{
    let l = line_bytes(ps[j]).len() as int;
    if j == ps.len() - 1 {
        let off = headers_bytes(ps.drop_last()).len() as int;
        assert(headers_bytes(ps).subrange(off, off + l) =~= line_bytes(ps[j]));
    } else {
        assert(ps.drop_last()[j] == ps[j]);
        lemma_headers_bytes_contain(ps.drop_last(), j);
        let off = choose|off: int|
            0 <= off && off + l <= headers_bytes(ps.drop_last()).len() && #[trigger] headers_bytes(
                ps.drop_last(),
            ).subrange(off, off + l) == line_bytes(ps.drop_last()[j]);
        assert(headers_bytes(ps).subrange(off, off + l) =~= headers_bytes(
            ps.drop_last(),
        ).subrange(off, off + l));
    }
}

/// The bytes the writer emits for a response with a body of `n` bytes
/// contain the header line `Content-Length: n`.
/// A subrange taken inside the middle part of a concatenation.
proof fn lemma_concat_subrange(a: Seq<u8>, b: Seq<u8>, c: Seq<u8>, off: int, l: int)
    requires
        0 <= off,
        0 <= l,
        off + l <= b.len(),
    ensures
        (a + b + c).subrange(a.len() + off, a.len() + off + l) == b.subrange(off, off + l),
{
    assert((a + b + c).subrange(a.len() + off, a.len() + off + l) =~= b.subrange(off, off + l));
}

pub proof fn lemma_response_has_content_length(resp: HttpResponse)
    requires
        resp.body is Some,
    ensures
        ({
            let n = resp.body->0@.len();
            let l = content_length_line(n).len() as int;
            exists|i: int|
                0 <= i && i + l <= response_bytes(resp).len() && #[trigger] response_bytes(
                    resp,
                ).subrange(i, i + l) == content_length_line(n)
        }),
{
    let n = resp.body->0@.len();
    let l = content_length_line(n).len() as int;
    let ps = resp.headers.pairs();
    let stamped = stamped_headers(resp);
    let f = find_key(ps, "Content-Length"@);
    lemma_find_key(ps, "Content-Length"@);
    let idx: int = if f == -1 {
        ps.len() as int
    } else {
        f
    };
    assert(stamped[idx] == ("Content-Length"@, ascii_view(dec_digits(n))));
    assert(0 <= idx < stamped.len());
    lemma_headers_bytes_contain(stamped, idx);
    assert(line_bytes(stamped[idx]) == content_length_line(n));
    let off = choose|off: int|
        0 <= off && off + l <= headers_bytes(stamped).len() && #[trigger] headers_bytes(
            stamped,
        ).subrange(off, off + l) == line_bytes(stamped[idx]);
    let sl = status_line_bytes(resp.status);
    let i = sl.len() + off;
    let hbs = headers_bytes(stamped);
    let tail = (match resp.body {
        Some(b) => crlfcrlf() + b@,
        None => Seq::<u8>::empty(),
    }) + crlfcrlf();
    assert(response_bytes(resp) =~= sl + hbs + tail);
    lemma_concat_subrange(sl, hbs, tail, off, l);
    assert(response_bytes(resp).subrange(i as int, i as int + l) == hbs.subrange(off, off + l));
}

} // verus!
