//! The card gateway as the site reaches it through its local sidecar: the
//! request bodies and heads, the reading of replies, the mock session used
//! when no sidecar is wired, and the mapping of gateway statuses.

use vstd::prelude::*;
use crate::json::{json_string, push_json_string};
use crate::text::{
    append_chars, append_str, chars_of, find_sub, find_sub_chars, first_line, first_line_chars, i64_chars, int_str,
    nat_digits, owned, parse_unsigned, parse_unsigned_spec, slice_chars, string_of, text_from_utf8_lossy, trim,
    trim_str, u64_digits, upper_chars, upper_seq, lossy_text, words, words_chars,
};

verus! {

/// A gateway checkout session: its id, where to send the browser, and
/// whether it is the mock one.
#[derive(Debug)]
pub struct CheckoutSession {
    pub id: String,
    pub redirect_url: String,
    pub mock: bool,
}

/// The state of a gateway checkout.
#[derive(Debug, Clone, Copy, PartialEq, Eq, Structural)]
pub enum Outcome {
    Succeeded,
    Failed,
    Pending,
}

/// Gateway statuses that mean the payment went through.
pub open spec fn succeeded_word(s: Seq<char>) -> bool {
    s == "SUCCEEDED"@ || s == "SUCCESS"@ || s == "AUTHORIZED"@ || s == "AUTHORISED"@ || s == "COMPLETED"@
        || s == "SETTLEMENT_REQUESTED"@ || s == "SETTLEMENT_SUBMITTED"@ || s == "SETTLEMENT_COMPLETED"@
}

/// Gateway statuses that mean the payment did not go through.
pub open spec fn failed_word(s: Seq<char>) -> bool {
    s == "FAILED"@ || s == "DECLINED"@ || s == "CANCELLED"@ || s == "CANCELED"@ || s == "EXPIRED"@
}

/// The outcome a gateway status names, read trimmed and ASCII-uppercased;
/// anything unknown is still pending.
pub open spec fn outcome_of(status: Seq<char>) -> Outcome {
    let s = upper_seq(trim(status));
    if succeeded_word(s) {
        Outcome::Succeeded
    } else if failed_word(s) {
        Outcome::Failed
    } else {
        Outcome::Pending
    }
}

/// Map a gateway status, in the sidecar's words or the gateway's own, to an
/// outcome.
pub fn classify(status: &str) -> (o: Outcome)
    ensures
        o == outcome_of(status@),
{
    let s = string_of(&upper_chars(&trim_str(status)));
    let t = s.as_str();
    if crate::text::str_eq(t, "SUCCEEDED") || crate::text::str_eq(t, "SUCCESS") || crate::text::str_eq(
        t,
        "AUTHORIZED",
    ) || crate::text::str_eq(t, "AUTHORISED") || crate::text::str_eq(t, "COMPLETED") || crate::text::str_eq(
        t,
        "SETTLEMENT_REQUESTED",
    ) || crate::text::str_eq(t, "SETTLEMENT_SUBMITTED") || crate::text::str_eq(t, "SETTLEMENT_COMPLETED") {
        Outcome::Succeeded
    } else if crate::text::str_eq(t, "FAILED") || crate::text::str_eq(t, "DECLINED") || crate::text::str_eq(
        t,
        "CANCELLED",
    ) || crate::text::str_eq(t, "CANCELED") || crate::text::str_eq(t, "EXPIRED") {
        Outcome::Failed
    } else {
        Outcome::Pending
    }
}

/// The JSON body that opens a gateway checkout.
pub open spec fn checkout_json(
    amount: i64,
    currency: Seq<char>,
    order_ref: Seq<char>,
    return_url: Seq<char>,
    cancel_url: Seq<char>,
) -> Seq<char> {
    "{\"amount\":"@ + int_str(amount as int) + ",\"currency\":"@ + json_string(currency) + ",\"orderRef\":"@
        + json_string(order_ref) + ",\"returnUrl\":"@ + json_string(return_url) + ",\"cancelUrl\":"@
        + json_string(cancel_url) + "}"@
}

pub fn checkout_request_body(
    amount: i64,
    currency: &str,
    order_ref: &str,
    return_url: &str,
    cancel_url: &str,
) -> (r: String)
    ensures
        r@ == checkout_json(amount, currency@, order_ref@, return_url@, cancel_url@),
{
    let mut v: Vec<char> = Vec::new();
    append_str(&mut v, "{\"amount\":");
    append_chars(&mut v, &i64_chars(amount));
    append_str(&mut v, ",\"currency\":");
    push_json_string(&mut v, currency);
    append_str(&mut v, ",\"orderRef\":");
    push_json_string(&mut v, order_ref);
    append_str(&mut v, ",\"returnUrl\":");
    push_json_string(&mut v, return_url);
    append_str(&mut v, ",\"cancelUrl\":");
    push_json_string(&mut v, cancel_url);
    append_str(&mut v, "}");
    string_of(&v)
}

/// The session used when no gateway is wired: the browser goes straight to
/// the callback, so the success path can be walked end to end.
pub fn mock_session(order_ref: &str, return_url: &str) -> (s: CheckoutSession)
    ensures
        s.id@ == "mock-"@ + order_ref@,
        s.redirect_url@ == return_url@,
        s.mock,
{
    let mut v: Vec<char> = Vec::new();
    append_str(&mut v, "mock-");
    append_str(&mut v, order_ref);
    CheckoutSession { id: string_of(&v), redirect_url: owned(return_url), mock: true }
}

/// The sidecar path that reports a checkout's state.
pub fn outcome_path(checkout_id: &str) -> (r: String)
    ensures
        r@ == "/payment/landsbankinn/checkout/"@ + checkout_id@,
{
    let mut v: Vec<char> = Vec::new();
    append_str(&mut v, "/payment/landsbankinn/checkout/");
    append_str(&mut v, checkout_id);
    string_of(&v)
}

/// The request line and headers of a sidecar request with a body of `len`
/// bytes.
pub open spec fn request_head(method: Seq<char>, path: Seq<char>, port: u16, len: nat) -> Seq<char> {
    method + " "@ + path + " HTTP/1.1\r\nHost: 127.0.0.1:"@ + nat_digits(port as nat)
        + "\r\nContent-Type: application/json\r\nContent-Length: "@ + nat_digits(len)
        + "\r\nConnection: close\r\n\r\n"@
}

pub fn sidecar_request_head(method: &str, path: &str, port: u16, len: usize) -> (r: String)
    ensures
        r@ == request_head(method@, path@, port, len as nat),
{
    let mut v: Vec<char> = Vec::new();
    append_str(&mut v, method);
    append_str(&mut v, " ");
    append_str(&mut v, path);
    append_str(&mut v, " HTTP/1.1\r\nHost: 127.0.0.1:");
    append_chars(&mut v, &u64_digits(port as u64));
    append_str(&mut v, "\r\nContent-Type: application/json\r\nContent-Length: ");
    append_chars(&mut v, &u64_digits(len as u64));
    append_str(&mut v, "\r\nConnection: close\r\n\r\n");
    string_of(&v)
}

/// The first line of a reply (empty when there is none).
pub open spec fn status_line(text: Seq<char>) -> Seq<char> {
    match first_line(text) {
        Some(l) => l,
        None => Seq::<char>::empty(),
    }
}

/// The status code in a reply's first line is 2xx.
pub open spec fn status_ok(text: Seq<char>) -> bool {
    let ws = words(status_line(text));
    ws.len() >= 2 && (match parse_unsigned_spec(ws[1], 65535) {
        Some(n) => 200 <= n && n < 300,
        None => false,
    })
}

/// What a sidecar reply yields: on a 2xx status, the body after the blank
/// line (empty when there is none); otherwise an error quoting the first
/// line.
pub open spec fn reply_of(text: Seq<char>) -> Result<Seq<char>, Seq<char>> {
    if status_ok(text) {
        match find_sub(text, "\r\n\r\n"@) {
            Some(k) => Ok(text.subrange(k + 4, text.len() as int)),
            None => Ok(Seq::<char>::empty()),
        }
    } else {
        Err("sidecar returned non-2xx: "@ + status_line(text))
    }
}

/// Read a whole sidecar reply (decoded leniently as UTF-8).
pub fn sidecar_reply(raw: &[u8]) -> (r: Result<String, String>)
    ensures
        match r {
            Ok(b) => reply_of(lossy_text(raw@)) == Ok::<Seq<char>, Seq<char>>(b@),
            Err(e) => reply_of(lossy_text(raw@)) == Err::<Seq<char>, Seq<char>>(e@),
        },
{
    let text = text_from_utf8_lossy(raw);
    let chars = chars_of(text.as_str());
    let line = match first_line_chars(&chars) {
        Some(l) => l,
        None => Vec::new(),
    };
    let ws = words_chars(&line);
    let ok = if ws.len() >= 2 {
        match parse_unsigned(&ws[1], 65535) {
            Some(n) => 200 <= n && n < 300,
            None => false,
        }
    } else {
        false
    };
    if !ok {
        let mut v: Vec<char> = Vec::new();
        append_str(&mut v, "sidecar returned non-2xx: ");
        append_chars(&mut v, &line);
        return Err(string_of(&v));
    }
    let mut sep: Vec<char> = Vec::new();
    append_str(&mut sep, "\r\n\r\n");
    match find_sub_chars(&chars, &sep) {
        Some(k) => {
            proof {
                reveal_strlit("\r\n\r\n");
                assert(sep@.len() == 4);
                assert(crate::text::is_first_at(chars@, sep@, k as int));
            }
            Ok(string_of(&slice_chars(&chars, k + 4, chars.len())))
        },
        None => Ok(String::new()),
    }
}

} // verus!
