//! The RFC 6455 opening handshake: recognise a WebSocket upgrade request and
//! compute the `Sec-WebSocket-Accept` response token.
//!
//! Per §4.2.2, the server answers a client key by appending the protocol's
//! fixed GUID, taking SHA-1 of that string, and base64-encoding the digest.
//! Request headers are given as `(name, value)` pairs in arrival order; a
//! header is found by its name ignoring ASCII case, first occurrence first.

use vstd::prelude::*;
use crate::digest::{sha1_digest, sha1_of};
use crate::text::{
    chars_of, eq_ignore_case, eq_ignore_case_chars, split_chars, split_on, str_eq, trim,
    trim_chars,
};
use crate::ws::base64;
use vstd::utf8::encode_utf8;

verus! {

/// The "magic string" every RFC 6455 server appends to the client key (§1.3).
pub const WS_GUID: &'static str = "258EAFA5-E914-47DA-95CA-C5AB0DC85B11";

/// The WebSocket version this implementation speaks; 13 is the only version
/// standardised by RFC 6455.
pub const WS_VERSION: &'static str = "13";

/// The `Sec-WebSocket-Accept` token for a client key: base64 of the SHA-1 of
/// the key's bytes followed by the GUID's.
pub open spec fn accept_token(key: Seq<char>) -> Seq<char> {
    base64::encoded(sha1_digest(encode_utf8(key) + encode_utf8(WS_GUID@)))
}

/// Derive `Sec-WebSocket-Accept` from the client's `Sec-WebSocket-Key`.
pub fn accept_key(client_key: &str) -> (r: String)
    ensures
        r@ == accept_token(client_key@),
{
    let a = client_key.as_bytes();
    let b = WS_GUID.as_bytes();
    let mut combined: Vec<u8> = Vec::new();
    let mut i: usize = 0;
    while i < a.len()
        invariant
            i <= a@.len(),
            combined@ =~= a@.subrange(0, i as int),
        decreases a@.len() - i,
    {
        combined.push(a[i]);
        i = i + 1;
    }
    let mut j: usize = 0;
    while j < b.len()
        invariant
            j <= b@.len(),
            combined@ =~= a@ + b@.subrange(0, j as int),
        decreases b@.len() - j,
    {
        combined.push(b[j]);
        j = j + 1;
    }
    assert(combined@ =~= a@ + b@);
    let digest = sha1_of(combined.as_slice());
    base64::encode(digest.as_slice())
}

/// The headers as character sequences.
pub open spec fn headers_view(h: Seq<(String, String)>) -> Seq<(Seq<char>, Seq<char>)> {
    Seq::new(h.len(), |i: int| (h[i].0@, h[i].1@))
}

/// The value of the first header named `name` (ASCII case ignored).
pub open spec fn header_of(h: Seq<(Seq<char>, Seq<char>)>, name: Seq<char>) -> Option<Seq<char>>
    decreases h.len(),
{
    if h.len() == 0 {
        None
    } else if eq_ignore_case(h[0].0, name) {
        Some(h[0].1)
    } else {
        header_of(h.drop_first(), name)
    }
}

/// The value of the first header named `name`, ignoring ASCII case.
pub fn header_value<'a>(headers: &'a Vec<(String, String)>, name: &str) -> (r: Option<&'a str>)
    ensures
        match r {
            Some(v) => header_of(headers_view(headers@), name@) == Some(v@),
            None => header_of(headers_view(headers@), name@) is None,
        },
{
    let want = chars_of(name);
    let mut i: usize = 0;
    assert(headers_view(headers@).subrange(0, headers@.len() as int) =~= headers_view(headers@));
    while i < headers.len()
        invariant
            i <= headers@.len(),
            want@ == name@,
            header_of(headers_view(headers@), name@) == header_of(
                headers_view(headers@).subrange(i as int, headers@.len() as int),
                name@,
            ),
        decreases headers@.len() - i,
    {
        let ghost rest = headers_view(headers@).subrange(i as int, headers@.len() as int);
        assert(rest[0] == (headers@[i as int].0@, headers@[i as int].1@));
        assert(rest.drop_first() =~= headers_view(headers@).subrange(i + 1, headers@.len() as int));
        let n = chars_of(headers[i].0.as_str());
        if eq_ignore_case_chars(&n, &want) {
            return Some(headers[i].1.as_str());
        }
        i = i + 1;
    }
    None
}

/// The client's `Sec-WebSocket-Key`, if present and non-empty.
pub fn client_key<'a>(headers: &'a Vec<(String, String)>) -> (r: Option<&'a str>)
    ensures
        match r {
            Some(v) => header_of(headers_view(headers@), "Sec-WebSocket-Key"@) == Some(v@)
                && v@.len() > 0,
            None => match header_of(headers_view(headers@), "Sec-WebSocket-Key"@) {
                Some(v) => v.len() == 0,
                None => true,
            },
        },
{
    match header_value(headers, "Sec-WebSocket-Key") {
        Some(k) => {
            if k.is_empty() {
                None
            } else {
                Some(k)
            }
        },
        None => None,
    }
}

/// True when a header, trimmed, equals `want` ignoring ASCII case.
pub open spec fn header_is(h: Seq<(Seq<char>, Seq<char>)>, name: Seq<char>, want: Seq<char>) -> bool {
    match header_of(h, name) {
        Some(v) => eq_ignore_case(trim(v), want),
        None => false,
    }
}

/// True when a comma-separated header list holds `token`, each piece trimmed
/// and compared ignoring ASCII case.
pub open spec fn header_lists(h: Seq<(Seq<char>, Seq<char>)>, name: Seq<char>, token: Seq<char>) -> bool {
    match header_of(h, name) {
        Some(v) => lists_token(v, token),
        None => false,
    }
}

/// True when one comma-separated piece of `v`, trimmed, is `token` ignoring
/// ASCII case.
pub open spec fn lists_token(v: Seq<char>, token: Seq<char>) -> bool {
    exists|i: int|
        0 <= i < split_on(v, ',').len() && eq_ignore_case(
            trim(#[trigger] split_on(v, ',')[i]),
            token,
        )
}

/// A well-formed WebSocket upgrade request: a `GET` whose `Upgrade` is
/// `websocket`, whose `Connection` list holds `upgrade`, whose version is 13,
/// and which carries a non-empty key.
pub open spec fn upgrade_request(method: Seq<char>, h: Seq<(Seq<char>, Seq<char>)>) -> bool {
    &&& method == "GET"@
    &&& header_is(h, "Upgrade"@, "websocket"@)
    &&& header_lists(h, "Connection"@, "upgrade"@)
    &&& header_of(h, "Sec-WebSocket-Version"@) == Some(WS_VERSION@)
    &&& header_of(h, "Sec-WebSocket-Key"@) matches Some(k) && k.len() > 0
}

fn header_eq(headers: &Vec<(String, String)>, name: &str, want: &str) -> (r: bool)
    ensures
        r == header_is(headers_view(headers@), name@, want@),
{
    match header_value(headers, name) {
        Some(v) => {
            let t = trim_chars(&chars_of(v));
            eq_ignore_case_chars(&t, &chars_of(want))
        },
        None => false,
    }
}

fn header_has_token(headers: &Vec<(String, String)>, name: &str, token: &str) -> (r: bool)
    ensures
        r == header_lists(headers_view(headers@), name@, token@),
{
    match header_value(headers, name) {
        Some(v) => {
            let parts = split_chars(&chars_of(v), ',');
            let want = chars_of(token);
            let mut i: usize = 0;
            while i < parts.len()
                invariant
                    i <= parts@.len(),
                    parts@.len() == split_on(v@, ',').len(),
                    forall|k: int| 0 <= k < parts@.len() ==> #[trigger] parts@[k]@ == split_on(v@, ',')[k],
                    want@ == token@,
                    header_of(headers_view(headers@), name@) == Some(v@),
                    forall|k: int| 0 <= k < i ==> !eq_ignore_case(trim(#[trigger] split_on(v@, ',')[k]), token@),
                decreases parts@.len() - i,
            {
                let t = trim_chars(&parts[i]);
                if eq_ignore_case_chars(&t, &want) {
                    let ghost k = i as int;
                    assert(eq_ignore_case(trim(split_on(v@, ',')[k]), token@));
                    assert(header_of(headers_view(headers@), name@) == Some(v@));
                    assert(0 <= k < split_on(v@, ',').len());
                    assert(lists_token(v@, token@));
                    return true;
                }
                i = i + 1;
            }
            false
        },
        None => false,
    }
}

/// Is this request a well-formed WebSocket upgrade that can be accepted? Checks
/// the method, the `Upgrade`/`Connection` tokens, the version, and the key,
/// case-insensitively where the RFC allows.
pub fn is_websocket_upgrade(method: &str, headers: &Vec<(String, String)>) -> (r: bool)
    ensures
        r == upgrade_request(method@, headers_view(headers@)),
{
    if !str_eq(method, "GET") {
        return false;
    }
    if !header_eq(headers, "Upgrade", "websocket") {
        return false;
    }
    if !header_has_token(headers, "Connection", "upgrade") {
        return false;
    }
    let version_ok = match header_value(headers, "Sec-WebSocket-Version") {
        Some(v) => str_eq(v, WS_VERSION),
        None => false,
    };
    if !version_ok {
        return false;
    }
    client_key(headers).is_some()
}

} // verus!
