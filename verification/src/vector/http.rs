//! The pure parts of a minimal plain-HTTP/1.1 client: endpoint parsing,
//! request building and response splitting. TLS terminates at the edge, so an
//! `https://` endpoint is rejected with a clear error.

use vstd::prelude::*;
use vstd::utf8::encode_utf8;
use crate::text::{
    append_chars, append_str, byte_len, chars_of, eq_ignore_case, eq_ignore_case_chars,
    find_sub, find_sub_chars, first_line, first_line_chars, is_alnum, last_index,
    last_index_chars, nat_digits, parse_unsigned, parse_unsigned_spec, slice_chars, string_of,
    trim, trim_str, truncate_bytes, u64_digits, words, words_chars,
};
use crate::vector::client::{request_body, EmbedInput};
use crate::vector::error::{EmbedError, EmbedErrorView};

verus! {

/// A parsed plain-HTTP endpoint: `host` and `port`.
#[derive(Debug, Clone, PartialEq, Eq)]
pub struct Endpoint {
    pub host: String,
    pub port: u16,
}

/// `s` without the prefix `p`, compared ignoring ASCII case.
pub open spec fn strip_ci(s: Seq<char>, p: Seq<char>) -> Option<Seq<char>> {
    if s.len() >= p.len() && eq_ignore_case(s.subrange(0, p.len() as int), p) {
        Some(s.subrange(p.len() as int, s.len() as int))
    } else {
        None
    }
}

/// Case-insensitively strip a known ASCII scheme prefix. The prefix is cut
/// from `s` by bytes, so byte `prefix.len()` of `s` must not fall inside a
/// character.
pub fn strip_ci_prefix(s: &Vec<char>, prefix: &str) -> (r: Option<Vec<char>>)
    requires
        truncate_bytes(s@, byte_len(prefix@)) is Some,
    ensures
        match r {
            Some(rest) => strip_ci(s@, prefix@) == Some(rest@),
            None => strip_ci(s@, prefix@) is None,
        },
{
    let p = chars_of(prefix);
    if s.len() >= p.len() {
        let head = slice_chars(s, 0, p.len());
        if eq_ignore_case_chars(&head, &p) {
            return Some(slice_chars(s, p.len(), s.len()));
        }
    }
    None
}

/// Where the authority of a URL remainder ends: at the first `/`, `?` or `#`.
pub open spec fn authority_end(s: Seq<char>) -> int
    decreases s.len(),
{
    if s.len() == 0 {
        0
    } else if s[0] == '/' || s[0] == '?' || s[0] == '#' {
        0
    } else {
        1 + authority_end(s.drop_first())
    }
}

/// The endpoint an address names, as `(host, port)`, or why it is refused.
pub open spec fn endpoint_of(e: Seq<char>) -> Result<(Seq<char>, u16), EmbedErrorView> {
    let t = trim(e);
    if strip_ci(t, "https://"@) is Some {
        Err(EmbedErrorView::TlsUnsupported(t))
    } else {
        match strip_ci(t, "http://"@) {
            None => Err(EmbedErrorView::InvalidEndpoint("must start with http://: "@ + t)),
            Some(rest) => {
                let auth = rest.subrange(0, authority_end(rest));
                if auth.len() == 0 {
                    Err(EmbedErrorView::InvalidEndpoint("missing host: "@ + t))
                } else {
                    match last_index(auth, ':') {
                        Some(k) => {
                            let host = auth.subrange(0, k);
                            let p = auth.subrange(k + 1, auth.len() as int);
                            match parse_unsigned_spec(p, 65535) {
                                None => Err(EmbedErrorView::InvalidEndpoint("bad port: "@ + p)),
                                Some(port) => if host.len() == 0 {
                                    Err(EmbedErrorView::InvalidEndpoint("missing host: "@ + t))
                                } else {
                                    Ok((host, port as u16))
                                },
                            }
                        },
                        None => Ok((auth, 80u16)),
                    }
                }
            },
        }
    }
}

/// An endpoint result by its contents.
pub open spec fn endpoint_view(r: Result<Endpoint, EmbedError>) -> Result<(Seq<char>, u16), EmbedErrorView> {
    match r {
        Ok(ep) => Ok((ep.host@, ep.port)),
        Err(e) => Err(e@),
    }
}

/// Parsing the scheme cuts the trimmed address at bytes 8 and 7; both cuts
/// must fall between characters.
pub open spec fn scheme_cuts_ok(e: Seq<char>) -> bool {
    truncate_bytes(trim(e), 8) is Some && truncate_bytes(trim(e), 7) is Some
}

/// Whether `parse_endpoint` can cut the scheme of `endpoint` by bytes.
pub fn endpoint_cuts_ok(endpoint: &str) -> (r: bool)
    ensures
        r == scheme_cuts_ok(endpoint@),
{
    let t = trim_str(endpoint);
    crate::text::cut_at_char(&t, 8) && crate::text::cut_at_char(&t, 7)
}

fn invalid(prefix: &str, what: &Vec<char>) -> (e: EmbedError)
    ensures
        e@ == EmbedErrorView::InvalidEndpoint(prefix@ + what@),
{
    let mut v: Vec<char> = Vec::new();
    append_str(&mut v, prefix);
    append_chars(&mut v, what);
    EmbedError::InvalidEndpoint(string_of(&v))
}

/// Parse an endpoint like `http://host:port` (or `http://host`, defaulting to
/// port 80). A trailing path is ignored; `https://` is rejected with
/// `TlsUnsupported`.
pub fn parse_endpoint(endpoint: &str) -> (r: Result<Endpoint, EmbedError>)
    requires
        scheme_cuts_ok(endpoint@),
    ensures
        endpoint_view(r) == endpoint_of(endpoint@),
{
    let trimmed = trim_str(endpoint);
    proof {
        reveal_strlit("https://");
        reveal_strlit("http://");
        reveal_with_fuel(byte_len, 9);
    }
    if let Some(_) = strip_ci_prefix(&trimmed, "https://") {
        return Err(EmbedError::TlsUnsupported(string_of(&trimmed)));
    }
    let rest = match strip_ci_prefix(&trimmed, "http://") {
        Some(r) => r,
        None => return Err(invalid("must start with http://: ", &trimmed)),
    };
    let mut end: usize = 0;
    assert(rest@.subrange(0, rest@.len() as int) =~= rest@);
    while end < rest.len() && rest[end] != '/' && rest[end] != '?' && rest[end] != '#'
        invariant
            end <= rest@.len(),
            authority_end(rest@) == end + authority_end(rest@.subrange(end as int, rest@.len() as int)),
        decreases rest@.len() - end,
    {
        assert(rest@.subrange(end as int, rest@.len() as int).drop_first() =~= rest@.subrange(
            end + 1,
            rest@.len() as int,
        ));
        end = end + 1;
    }
    let authority = slice_chars(&rest, 0, end);
    if authority.len() == 0 {
        return Err(invalid("missing host: ", &trimmed));
    }
    match last_index_chars(&authority, ':') {
        Some(k) => {
            let host = slice_chars(&authority, 0, k);
            let p = slice_chars(&authority, k + 1, authority.len());
            let port = match parse_unsigned(&p, 65535) {
                Some(n) => n as u16,
                None => return Err(invalid("bad port: ", &p)),
            };
            if host.len() == 0 {
                return Err(invalid("missing host: ", &trimmed));
            }
            Ok(Endpoint { host: string_of(&host), port })
        },
        None => Ok(Endpoint { host: string_of(&authority), port: 80 }),
    }
}

/// A header name is safe when it is non-empty ASCII letters, digits and `-`.
pub open spec fn safe_name(s: Seq<char>) -> bool {
    s.len() > 0 && forall|i: int| 0 <= i < s.len() ==> is_alnum(#[trigger] s[i]) || s[i] == '-'
}

/// A header value is safe when it holds no CR or LF.
pub open spec fn safe_value(s: Seq<char>) -> bool {
    forall|i: int| 0 <= i < s.len() ==> #[trigger] s[i] != '\r' && s[i] != '\n'
}

/// The extra headers by their characters.
pub open spec fn pairs_view(h: Seq<(&str, &str)>) -> Seq<(Seq<char>, Seq<char>)> {
    Seq::new(h.len(), |i: int| (h[i].0@, h[i].1@))
}

/// The header lines for the extra headers, skipping any unsafe one.
pub open spec fn header_lines(h: Seq<(Seq<char>, Seq<char>)>) -> Seq<char>
    decreases h.len(),
{
    if h.len() == 0 {
        seq![]
    } else {
        let (name, value) = h.last();
        header_lines(h.drop_last()) + if safe_name(name) && safe_value(value) {
            name + ": "@ + value + "\r\n"@
        } else {
            seq![]
        }
    }
}

/// The `Host` header value: the host, with `:port` unless the port is 80.
pub open spec fn host_header(host: Seq<char>, port: u16) -> Seq<char> {
    if port == 80 {
        host
    } else {
        host + ":"@ + nat_digits(port as nat)
    }
}

/// The full request text for `POST /v1/embeddings` with `body`.
pub open spec fn request_text(
    host: Seq<char>,
    port: u16,
    body: Seq<char>,
    extra: Seq<(Seq<char>, Seq<char>)>,
) -> Seq<char> {
    "POST /v1/embeddings HTTP/1.1\r\nHost: "@ + host_header(host, port)
        + "\r\nContent-Type: application/json\r\nAccept: application/json\r\n"@ + header_lines(
        extra,
    ) + "Content-Length: "@ + nat_digits(encode_utf8(body).len()) + "\r\nConnection: close\r\n\r\n"@
        + body
}

fn safe_header_name(value: &str) -> (r: bool)
    ensures
        r == safe_name(value@),
{
    let v = chars_of(value);
    if v.len() == 0 {
        return false;
    }
    let mut i: usize = 0;
    while i < v.len()
        invariant
            i <= v@.len(),
            v@ == value@,
            forall|k: int| 0 <= k < i ==> is_alnum(#[trigger] v@[k]) || v@[k] == '-',
        decreases v@.len() - i,
    {
        let c = v[i];
        if !(crate::text::alnum_check(c) || c == '-') {
            return false;
        }
        i = i + 1;
    }
    true
}

fn safe_header_value(value: &str) -> (r: bool)
    ensures
        r == safe_value(value@),
{
    let v = chars_of(value);
    let mut i: usize = 0;
    while i < v.len()
        invariant
            i <= v@.len(),
            v@ == value@,
            forall|k: int| 0 <= k < i ==> #[trigger] v@[k] != '\r' && v@[k] != '\n',
        decreases v@.len() - i,
    {
        if v[i] == '\r' || v[i] == '\n' {
            return false;
        }
        i = i + 1;
    }
    true
}

/// Build a complete HTTP/1.1 request for an OpenAI-compatible
/// `POST /v1/embeddings`, with the JSON body
/// `{"model": <model>, "input": <text|[texts]>}`. `Content-Length` is the
/// exact UTF-8 byte length of the body; the connection is closed after the
/// response so the client can read until EOF.
pub fn build_request(host: &str, port: u16, model: &str, input: &EmbedInput) -> (r: String)
    ensures
        r@ == request_text(host@, port, request_body(model@, *input), seq![]),
{
    let none: Vec<(&str, &str)> = Vec::new();
    let r = build_request_with_headers(host, port, model, input, none.as_slice());
    assert(pairs_view(none@) =~= Seq::<(Seq<char>, Seq<char>)>::empty());
    r
}

/// Build a request with additional HTTP headers. Header names and values with
/// CR/LF are skipped so env-sourced tokens cannot inject extra headers.
pub fn build_request_with_headers(
    host: &str,
    port: u16,
    model: &str,
    input: &EmbedInput,
    extra_headers: &[(&str, &str)],
) -> (r: String)
    ensures
        r@ == request_text(host@, port, request_body(model@, *input), pairs_view(extra_headers@)),
{
    let body = input.to_json_body(model);
    let mut v: Vec<char> = Vec::new();
    append_str(&mut v, "POST /v1/embeddings HTTP/1.1\r\nHost: ");
    append_str(&mut v, host);
    if port != 80 {
        append_str(&mut v, ":");
        let d = u64_digits(port as u64);
        append_chars(&mut v, &d);
    }
    append_str(&mut v, "\r\nContent-Type: application/json\r\nAccept: application/json\r\n");
    let ghost before_headers = v@;
    let mut i: usize = 0;
    while i < extra_headers.len()
        invariant
            i <= extra_headers@.len(),
            v@ == before_headers + header_lines(pairs_view(extra_headers@).subrange(0, i as int)),
        decreases extra_headers@.len() - i,
    {
        let (name, value) = extra_headers[i];
        let ghost sub = pairs_view(extra_headers@).subrange(0, i + 1);
        assert(sub.drop_last() =~= pairs_view(extra_headers@).subrange(0, i as int));
        assert(sub.last() == (name@, value@));
        if safe_header_name(name) && safe_header_value(value) {
            append_str(&mut v, name);
            append_str(&mut v, ": ");
            append_str(&mut v, value);
            append_str(&mut v, "\r\n");
        }
        assert(v@ =~= before_headers + header_lines(sub));
        i = i + 1;
    }
    assert(pairs_view(extra_headers@).subrange(0, extra_headers@.len() as int) =~= pairs_view(
        extra_headers@,
    ));
    append_str(&mut v, "Content-Length: ");
    let n = body.as_str().as_bytes().len();
    let d = u64_digits(n as u64);
    append_chars(&mut v, &d);
    append_str(&mut v, "\r\nConnection: close\r\n\r\n");
    append_str(&mut v, body.as_str());
    let r = string_of(&v);
    assert(r@ =~= request_text(host@, port, request_body(model@, *input), pairs_view(extra_headers@)));
    r
}

/// The body of a raw HTTP response when its status is 2xx, or why not.
pub open spec fn response_of(raw: Seq<char>) -> Result<Seq<char>, EmbedErrorView> {
    let sep: Option<(int, int)> = match find_sub(raw, "\r\n\r\n"@) {
        Some(i) => Some((i, 4)),
        None => match find_sub(raw, "\n\n"@) {
            Some(i) => Some((i, 2)),
            None => None,
        },
    };
    match sep {
        None => Err(EmbedErrorView::ShortResponse),
        Some((i, n)) => {
            let head = raw.subrange(0, i);
            let body = raw.subrange(i + n, raw.len() as int);
            match first_line(head) {
                None => Err(EmbedErrorView::ShortResponse),
                Some(line) => {
                    let w = words(line);
                    if w.len() < 2 {
                        Err(EmbedErrorView::ShortResponse)
                    } else {
                        match parse_unsigned_spec(w[1], 65535) {
                            None => Err(EmbedErrorView::ShortResponse),
                            Some(code) => if 200 <= code < 300 {
                                Ok(body)
                            } else {
                                Err(
                                    EmbedErrorView::HttpStatus(
                                        code as u16,
                                        body.subrange(
                                            0,
                                            if body.len() < 200 {
                                                body.len() as int
                                            } else {
                                                200
                                            },
                                        ),
                                    ),
                                )
                            },
                        }
                    }
                },
            }
        },
    }
}

/// A response result by its contents.
pub open spec fn response_view(r: Result<String, EmbedError>) -> Result<Seq<char>, EmbedErrorView> {
    match r {
        Ok(b) => Ok(b@),
        Err(e) => Err(e@),
    }
}

/// Split a raw HTTP response into its body. `ShortResponse` when there is no
/// header/body separator or the status line is unparseable, `HttpStatus` for
/// any non-2xx code (carrying the first 200 characters of the body).
pub fn split_response(raw: &str) -> (r: Result<String, EmbedError>)
    ensures
        response_view(r) == response_of(raw@),
{
    let v = chars_of(raw);
    let crlf = chars_of("\r\n\r\n");
    let lf = chars_of("\n\n");
    let (head_end, sep_len): (usize, usize) = match find_sub_chars(&v, &crlf) {
        Some(i) => (i, 4),
        None => match find_sub_chars(&v, &lf) {
            Some(i) => (i, 2),
            None => return Err(EmbedError::ShortResponse),
        },
    };
    proof {
        reveal_strlit("\r\n\r\n");
        reveal_strlit("\n\n");
    }
    assert(head_end + sep_len <= v@.len());
    let head = slice_chars(&v, 0, head_end);
    let body = slice_chars(&v, head_end + sep_len, v.len());
    let line = match first_line_chars(&head) {
        Some(l) => l,
        None => return Err(EmbedError::ShortResponse),
    };
    let w = words_chars(&line);
    if w.len() < 2 {
        return Err(EmbedError::ShortResponse);
    }
    let code = match parse_unsigned(&w[1], 65535) {
        Some(c) => c as u16,
        None => return Err(EmbedError::ShortResponse),
    };
    if !(200 <= code && code < 300) {
        let n = if body.len() < 200 {
            body.len()
        } else {
            200
        };
        let snippet = slice_chars(&body, 0, n);
        return Err(EmbedError::HttpStatus { code, snippet: string_of(&snippet) });
    }
    Ok(string_of(&body))
}

/// The request `run` sends: with `Authorization: Bearer <token>` when the
/// trimmed token is non-empty, without extra headers otherwise.
pub fn request_with_bearer(ep: &Endpoint, model: &str, input: &EmbedInput, token: &str) -> (r: String)
    ensures
        r@ == request_text(
            ep.host@,
            ep.port,
            request_body(model@, *input),
            if trim(token@).len() == 0 {
                seq![]
            } else {
                seq![("Authorization"@, "Bearer "@ + trim(token@))]
            },
        ),
{
    let t = trim_str(token);
    if t.len() == 0 {
        return build_request(ep.host.as_str(), ep.port, model, input);
    }
    let mut a: Vec<char> = Vec::new();
    append_str(&mut a, "Bearer ");
    append_chars(&mut a, &t);
    let auth = string_of(&a);
    let mut headers: Vec<(&str, &str)> = Vec::new();
    headers.push(("Authorization", auth.as_str()));
    let r = build_request_with_headers(ep.host.as_str(), ep.port, model, input, headers.as_slice());
    assert(pairs_view(headers@) =~= seq![("Authorization"@, "Bearer "@ + trim(token@))]);
    r
}

} // verus!
