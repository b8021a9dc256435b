//! Cookie-based email-OTP session authentication: roles, session cookies,
//! salted and stretched SHA-1 code hashes, one-time codes with expiry and an
//! attempt cap, and sessions with a 60-day lifetime. Records are held one per
//! key; the clock, the random ids and the delivery of codes come from the
//! caller.

use vstd::prelude::*;
use vstd::utf8::encode_utf8;
use crate::digest::{sha1_digest, sha1_of};
use crate::json::{hex_digit, json_string, push_json_string};
use crate::table::{erase, keys_sorted, lemma_lookup_erase, lookup, upsert, Table};
use crate::text::{
    append_chars, append_str, chars_of, eq_ignore_case, lower_chars, lower_seq, owned, split_chars,
    split_on, str_eq, string_of, trim, trim_chars, trim_str, find, find_char, slice_chars,
    nat_digits, u64_digits, zero_pad, zero_pad_chars, first_line, first_line_chars, words,
    words_chars, parse_unsigned, parse_unsigned_spec, is_ws, text_from_utf8,
};
use vstd::utf8::{decode_utf8, valid_utf8};

verus! {

/// Session cookie name.
pub const COOKIE_NAME: &'static str = "gsd_session";

/// Session lifetime in seconds (60 days).
pub const SESSION_TTL_SECS: i64 = 5184000;

/// How long a one-time code stays valid, in seconds (10 minutes).
pub const OTP_TTL_SECS: i64 = 600;

/// Wrong guesses after which a one-time code is locked.
pub const OTP_MAX_ATTEMPTS: i64 = 5;

/// Digits in a one-time code.
pub const OTP_CODE_DIGITS: usize = 6;

/// SHA-1 stretch rounds.
pub const HASH_ROUNDS: usize = 4096;

// ---------------------------------------------------------------------------
// Role
// ---------------------------------------------------------------------------

/// Authorization role. `Admin` satisfies every role check; `User` is the
/// default for any new account.
#[derive(Debug, Clone, Copy, PartialEq, Eq, Structural)]
pub enum Role {
    User,
    Admin,
}

/// The stored name of a role.
pub open spec fn role_name(r: Role) -> Seq<char> {
    match r {
        Role::User => "user"@,
        Role::Admin => "admin"@,
    }
}

impl Role {
    pub fn as_str(self) -> (s: &'static str)
        ensures
            s@ == role_name(self),
    {
        match self {
            Role::User => "user",
            Role::Admin => "admin",
        }
    }

    /// `admin` is the admin role; every other name is the user role.
    pub fn parse(s: &str) -> (r: Role)
        ensures
            r == (if s@ == "admin"@ { Role::Admin } else { Role::User }),
    {
        if str_eq(s, "admin") {
            Role::Admin
        } else {
            Role::User
        }
    }
}

/// Parsing a role's stored name gives the role back.
pub proof fn lemma_role_round_trip(r: Role)
    ensures
        (if role_name(r) == "admin"@ { Role::Admin } else { Role::User }) == r,
{
    reveal_strlit("user");
    reveal_strlit("admin");
    assert("user"@[0] != "admin"@[0]);
}

/// The authenticated identity behind a request; the email doubles as the
/// booking engine's user id.
#[derive(Debug, Clone, PartialEq, Eq)]
pub struct AuthUser {
    pub email: String,
    pub role: Role,
}

// ---------------------------------------------------------------------------
// Cookies
// ---------------------------------------------------------------------------

/// The value of cookie `name` in a `Cookie` header: the first `;`-separated
/// pair holding `=` whose trimmed name is `name`, its value trimmed.
pub open spec fn cookie_in(pairs: Seq<Seq<char>>, name: Seq<char>) -> Option<Seq<char>>
    decreases pairs.len(),
{
    if pairs.len() == 0 {
        None
    } else {
        match find(pairs[0], '=') {
            Some(k) => if trim(pairs[0].subrange(0, k)) == name {
                Some(trim(pairs[0].subrange(k + 1, pairs[0].len() as int)))
            } else {
                cookie_in(pairs.drop_first(), name)
            },
            None => cookie_in(pairs.drop_first(), name),
        }
    }
}

/// Find cookie `name` in a `Cookie` header value.
pub fn parse_cookie(header: &str, name: &str) -> (r: Option<String>)
    ensures
        match r {
            Some(v) => cookie_in(split_on(header@, ';'), name@) == Some(v@),
            None => cookie_in(split_on(header@, ';'), name@) is None,
        },
{
    let parts = split_chars(&chars_of(header), ';');
    let ghost ps = split_on(header@, ';');
    let want = chars_of(name);
    let mut i: usize = 0;
    assert(ps.subrange(0, ps.len() as int) =~= ps);
    while i < parts.len()
        invariant
            i <= parts@.len(),
            ps == split_on(header@, ';'),
            parts@.len() == ps.len(),
            forall|k: int| 0 <= k < parts@.len() ==> #[trigger] parts@[k]@ == ps[k],
            want@ == name@,
            cookie_in(ps, name@) == cookie_in(ps.subrange(i as int, ps.len() as int), name@),
        decreases parts@.len() - i,
    {
        let ghost rest = ps.subrange(i as int, ps.len() as int);
        assert(rest[0] == ps[i as int]);
        assert(rest.drop_first() =~= ps.subrange(i + 1, ps.len() as int));
        let p = &parts[i];
        let n = p.len();
        if let Some(k) = find_char(p, '=') {
            let key = trim_chars(&slice_chars(p, 0, k));
            assert(p@ == ps[i as int]);
            if crate::text::chars_eq(&key, &want) {
                let v = trim_chars(&slice_chars(p, k + 1, n));
                assert(cookie_in(rest, name@) == Some(v@));
                return Some(string_of(&v));
            }
        }
        i = i + 1;
    }
    None
}

/// The `Set-Cookie` value that starts a session with id `id`.
pub open spec fn session_cookie(id: Seq<char>) -> Seq<char> {
    "gsd_session="@ + id + "; HttpOnly; Path=/; SameSite=Lax"@
}

/// The `Set-Cookie` value that starts a session.
pub fn set_cookie(id: &str) -> (r: String)
    ensures
        r@ == session_cookie(id@),
{
    let mut v: Vec<char> = Vec::new();
    append_str(&mut v, "gsd_session=");
    append_str(&mut v, id);
    append_str(&mut v, "; HttpOnly; Path=/; SameSite=Lax");
    string_of(&v)
}

/// The `Set-Cookie` value that ends a session.
pub fn expired_cookie() -> (r: String)
    ensures
        r@ == "gsd_session=; HttpOnly; Path=/; SameSite=Lax; Max-Age=0"@,
{
    owned("gsd_session=; HttpOnly; Path=/; SameSite=Lax; Max-Age=0")
}

/// An email address as stored: trimmed and ASCII-lowercased.
pub open spec fn normal_email(email: Seq<char>) -> Seq<char> {
    lower_seq(trim(email))
}

pub fn normalize_email(email: &str) -> (r: String)
    ensures
        r@ == normal_email(email@),
{
    let t = trim_str(email);
    string_of(&lower_chars(&t))
}

// ---------------------------------------------------------------------------
// Hashing
// ---------------------------------------------------------------------------

/// Two lowercase hex digits per byte.
pub open spec fn hex_of(bytes: Seq<u8>) -> Seq<char>
    decreases bytes.len(),
{
    if bytes.len() == 0 {
        seq![]
    } else {
        hex_of(bytes.drop_last()) + seq![
            hex_digit(bytes.last() as int / 16),
            hex_digit(bytes.last() as int % 16),
        ]
    }
}

/// `d` hashed again `n` times, each time with the salt's bytes appended.
pub open spec fn stretched(d: Seq<u8>, salt: Seq<u8>, n: nat) -> Seq<u8>
    decreases n,
{
    if n == 0 {
        d
    } else {
        sha1_digest(stretched(d, salt, (n - 1) as nat) + salt)
    }
}

/// The stored hash of `password` under `salt`: SHA-1 of `salt:password`,
/// stretched over 4096 rounds, in hex.
pub open spec fn password_hash(salt: Seq<char>, password: Seq<char>) -> Seq<char> {
    hex_of(
        stretched(
            sha1_digest(encode_utf8(salt + seq![':'] + password)),
            encode_utf8(salt),
            HASH_ROUNDS as nat,
        ),
    )
}

fn push_bytes(out: &mut Vec<u8>, b: &[u8])
    ensures
        final(out)@ == old(out)@ + b@,
{
    let mut i: usize = 0;
    let ghost start = out@;
    while i < b.len()
        invariant
            i <= b@.len(),
            out@ =~= start + b@.subrange(0, i as int),
        decreases b@.len() - i,
    {
        out.push(b[i]);
        i = i + 1;
    }
}

fn to_hex(bytes: &[u8]) -> (s: String)
    ensures
        s@ == hex_of(bytes@),
{
    let mut v: Vec<char> = Vec::new();
    let mut i: usize = 0;
    while i < bytes.len()
        invariant
            i <= bytes@.len(),
            v@ == hex_of(bytes@.subrange(0, i as int)),
        decreases bytes@.len() - i,
    {
        assert(bytes@.subrange(0, i + 1).drop_last() =~= bytes@.subrange(0, i as int));
        let b = bytes[i];
        v.push(hex_char(b / 16));
        v.push(hex_char(b % 16));
        i = i + 1;
    }
    assert(bytes@.subrange(0, bytes@.len() as int) =~= bytes@);
    string_of(&v)
}

fn hex_char(n: u8) -> (c: char)
    requires
        n < 16,
    ensures
        c == hex_digit(n as int),
{
    if n < 10 {
        (48 + n) as char
    } else {
        (87 + n) as char
    }
}

/// The salted, stretched hash of a password (4096 SHA-1 rounds), in hex.
pub fn hash_password(salt: &str, password: &str) -> (h: String)
    ensures
        h@ == password_hash(salt@, password@),
        is_lower_hex(h@),
        h@.len() == 40,
{
    let mut first: Vec<u8> = Vec::new();
    let mut joined: Vec<char> = chars_of(salt);
    joined.push(':');
    append_str(&mut joined, password);
    let js = string_of(&joined);
    assert(js@ =~= salt@ + seq![':'] + password@);
    let jb = js.as_str().as_bytes();
    assert(jb@ == encode_utf8(js@));
    push_bytes(&mut first, jb);
    assert(first@ =~= encode_utf8(salt@ + seq![':'] + password@));
    let mut digest = sha1_of(first.as_slice());
    let salt_bytes = salt.as_bytes();
    let mut i: usize = 0;
    while i < HASH_ROUNDS
        invariant
            i <= HASH_ROUNDS,
            salt_bytes@ == encode_utf8(salt@),
            digest@ == stretched(sha1_digest(first@), salt_bytes@, i as nat),
            digest@.len() == 20,
        decreases HASH_ROUNDS - i,
    {
        let mut buf: Vec<u8> = Vec::new();
        push_bytes(&mut buf, digest.as_slice());
        push_bytes(&mut buf, salt_bytes);
        digest = sha1_of(buf.as_slice());
        i = i + 1;
    }
    proof {
        lemma_hex_of_shape(digest@);
    }
    to_hex(digest.as_slice())
}

/// Every character is a lowercase hexadecimal digit.
pub open spec fn is_lower_hex(s: Seq<char>) -> bool {
    forall|i: int| 0 <= i < s.len() ==> ('0' <= #[trigger] s[i] <= '9' || 'a' <= s[i] <= 'f')
}

/// Hex text has two lowercase hex digits per byte.
pub proof fn lemma_hex_of_shape(bytes: Seq<u8>)
    ensures
        hex_of(bytes).len() == 2 * bytes.len(),
        is_lower_hex(hex_of(bytes)),
    decreases bytes.len(),
{
    if bytes.len() > 0 {
        lemma_hex_of_shape(bytes.drop_last());
        let h = hex_of(bytes);
        let p = hex_of(bytes.drop_last());
        assert forall|i: int| 0 <= i < h.len() implies ('0' <= #[trigger] h[i] <= '9' || 'a' <= h[i] <= 'f') by {
            if i < p.len() {
                assert(h[i] == p[i]);
            }
        }
    }
}

/// Compare two strings by their bytes in time independent of where they
/// differ; equal exactly when the strings are.
pub fn constant_time_eq(a: &str, b: &str) -> (r: bool)
    ensures
        r == (encode_utf8(a@) == encode_utf8(b@)),
{
    let x = a.as_bytes();
    let y = b.as_bytes();
    if x.len() != y.len() {
        return false;
    }
    let mut diff: u8 = 0;
    let mut i: usize = 0;
    assert(x@.subrange(0, 0) =~= y@.subrange(0, 0));
    while i < x.len()
        invariant
            i <= x@.len(),
            x@.len() == y@.len(),
            (diff == 0) == (x@.subrange(0, i as int) == y@.subrange(0, i as int)),
        decreases x@.len() - i,
    {
        let p = x[i];
        let q = y[i];
        let d2 = diff | (p ^ q);
        assert((d2 == 0) == (diff == 0 && p == q)) by (bit_vector)
            requires
                d2 == diff | (p ^ q),
        ;
        proof {
            let xs = x@.subrange(0, i + 1);
            let ys = y@.subrange(0, i + 1);
            assert(xs.drop_last() =~= x@.subrange(0, i as int));
            assert(ys.drop_last() =~= y@.subrange(0, i as int));
            if xs == ys {
                assert(xs.drop_last() == ys.drop_last());
                assert(xs.last() == ys.last());
            }
            if x@.subrange(0, i as int) == y@.subrange(0, i as int) && p == q {
                assert(xs =~= ys);
            }
        }
        diff = d2;
        i = i + 1;
    }
    assert(x@.subrange(0, x@.len() as int) =~= x@);
    assert(y@.subrange(0, y@.len() as int) =~= y@);
    diff == 0
}

// ---------------------------------------------------------------------------
// Ids and codes
// ---------------------------------------------------------------------------

/// One SplitMix64 output for the state `s` (already advanced).
pub open spec fn mix(s: u64) -> u64 {
    let z1 = vstd::wrapping::u64_specs::wrapping_mul(s ^ (s >> 30), 0xBF58_476D_1CE4_E5B9);
    let z2 = vstd::wrapping::u64_specs::wrapping_mul(z1 ^ (z1 >> 27), 0x94D0_49BB_1331_11EB);
    z2 ^ (z2 >> 31)
}

/// One SplitMix64 step: advance the state by the golden-ratio increment and
/// return its mix.
pub fn split_mix64(state: &mut u64) -> (r: u64)
    ensures
        *final(state) == vstd::wrapping::u64_specs::wrapping_add(*old(state), GOLDEN_GAMMA),
        r == mix(*final(state)),
{
    *state = state.wrapping_add(GOLDEN_GAMMA);
    let mut z = *state;
    z = (z ^ (z >> 30)).wrapping_mul(0xBF58_476D_1CE4_E5B9);
    z = (z ^ (z >> 27)).wrapping_mul(0x94D0_49BB_1331_11EB);
    z ^ (z >> 31)
}

/// `n` as `width` lowercase hex digits (`{n:0width$x}` for values that fit).
pub open spec fn hex_digits(n: nat, width: nat) -> Seq<char>
    decreases width,
{
    if width == 0 {
        seq![]
    } else {
        hex_digits(n / 16, (width - 1) as nat).push(hex_digit((n % 16) as int))
    }
}

fn hex_digits_of(n: u64, width: usize) -> (v: Vec<char>)
    requires
        width <= 16,
    ensures
        v@ == hex_digits(n as nat, width as nat),
    decreases width,
{
    if width == 0 {
        Vec::new()
    } else {
        let mut v = hex_digits_of(n / 16, width - 1);
        v.push(hex_char((n % 16) as u8));
        v
    }
}

/// The 32-hex-digit id made of two random words.
pub open spec fn id_text(a: u64, b: u64) -> Seq<char> {
    hex_digits(a as nat, 16) + hex_digits(b as nat, 16)
}

/// Format two random words as a 32-hex-digit id.
pub fn format_id(a: u64, b: u64) -> (s: String)
    ensures
        s@ == id_text(a, b),
{
    let mut v = hex_digits_of(a, 16);
    let w = hex_digits_of(b, 16);
    append_chars(&mut v, &w);
    string_of(&v)
}

/// `u64::rotate_left(x, k)` for `0 < k < 64`.
pub open spec fn rotl(x: u64, k: u64) -> u64 {
    (x << k) | (x >> (64 - k) as u64)
}

/// The golden-ratio increment of SplitMix64.
pub const GOLDEN_GAMMA: u64 = 0x9E37_79B9_7F4A_7C15;

/// The two SplitMix64 states a new id is drawn from: the clock's
/// nanoseconds mixed with the process id, and a per-process counter mixed
/// with the clock and spread by the golden ratio.
pub open spec fn id_seeds(nanos: u64, pid: u64, count: u64) -> (u64, u64) {
    (
        nanos ^ rotl(pid, 32),
        vstd::wrapping::u64_specs::wrapping_mul(
            vstd::wrapping::u64_specs::wrapping_add(count, rotl(nanos, 17)),
            GOLDEN_GAMMA,
        ),
    )
}

/// The id drawn from the clock's nanoseconds, the process id and a counter:
/// one SplitMix64 step from each seed, the two words in hex.
pub open spec fn id_from_seeds(nanos: u64, pid: u64, count: u64) -> Seq<char> {
    let (a, b) = id_seeds(nanos, pid, count);
    id_text(
        mix(vstd::wrapping::u64_specs::wrapping_add(a, GOLDEN_GAMMA)),
        mix(vstd::wrapping::u64_specs::wrapping_add(b, GOLDEN_GAMMA)),
    )
}

/// A fresh 32-hex-digit id from the clock's nanoseconds, the process id and
/// a per-process counter (the caller reads all three).
pub fn new_id(nanos: u64, pid: u64, count: u64) -> (s: String)
    ensures
        s@ == id_from_seeds(nanos, pid, count),
{
    let mut seed_a = nanos ^ ((pid << 32u64) | (pid >> 32u64));
    let mut seed_b = count.wrapping_add((nanos << 17u64) | (nanos >> 47u64)).wrapping_mul(GOLDEN_GAMMA);
    let a = split_mix64(&mut seed_a);
    let b = split_mix64(&mut seed_b);
    format_id(a, b)
}

/// The value of a string of hex digits.
pub open spec fn hex_value(s: Seq<char>) -> int
    decreases s.len(),
{
    if s.len() == 0 {
        0
    } else {
        hex_value(s.drop_last()) * 16 + hex_digit_value(s.last())
    }
}

/// The value of one hex digit (either case).
pub open spec fn hex_digit_value(c: char) -> int {
    if '0' <= c && c <= '9' {
        c as int - 48
    } else if 'a' <= c && c <= 'f' {
        c as int - 87
    } else {
        c as int - 55
    }
}

/// The six-digit code drawn from a random id: its first eight hex digits
/// read as a number, modulo 10^6, zero-padded to six digits.
pub open spec fn code_of(id: Seq<char>) -> Seq<char> {
    zero_pad(hex_value(id.subrange(0, 8)) % 1_000_000, 6)
}

/// Draw the six-digit one-time code from a random id (as `format_id` makes).
pub fn code_from_id(id: &str) -> (code: String)
    requires
        id@.len() >= 8,
        forall|i: int| 0 <= i < 8 ==> #[trigger] crate::text::is_hex_digit(id@[i]),
    ensures
        code@ == code_of(id@),
{
    let v = chars_of(id);
    let mut word: u64 = 0;
    let mut i: usize = 0;
    while i < 8
        invariant
            i <= 8,
            v@ == id@,
            v@.len() >= 8,
            forall|k: int| 0 <= k < 8 ==> #[trigger] crate::text::is_hex_digit(v@[k]),
            word == hex_value(v@.subrange(0, i as int)),
            word < pow16(i as nat),
        decreases 8 - i,
    {
        let c = v[i];
        assert(v@.subrange(0, i + 1).drop_last() =~= v@.subrange(0, i as int));
        assert(crate::text::is_hex_digit(v@[i as int]));
        let d: u64 = if '0' <= c && c <= '9' {
            (c as u64) - 48
        } else if 'a' <= c && c <= 'f' {
            (c as u64) - 87
        } else {
            (c as u64) - 55
        };
        proof {
            lemma_pow16_step(i as nat);
        }
        word = word * 16 + d;
        i = i + 1;
    }
    let w = zero_pad_chars((word % 1_000_000) as i64, 6);
    string_of(&w)
}

/// `16` to the power `k`.
pub open spec fn pow16(k: nat) -> nat
    decreases k,
{
    if k == 0 {
        1
    } else {
        16 * pow16((k - 1) as nat)
    }
}

proof fn lemma_pow16_step(i: nat)
    requires
        i < 8,
    ensures
        pow16(i + 1) == 16 * pow16(i),
        pow16(i + 1) <= 0x1_0000_0000,
{
    reveal_with_fuel(pow16, 9);
    if i < 7 {
        lemma_pow16_mono(i + 1, 8);
    }
}

proof fn lemma_pow16_mono(i: nat, j: nat)
    requires
        i <= j,
    ensures
        pow16(i) <= pow16(j),
    decreases j,
{
    if i < j {
        lemma_pow16_mono(i, (j - 1) as nat);
    }
}

// ---------------------------------------------------------------------------
// One-time codes, sessions and accounts
// ---------------------------------------------------------------------------

/// The outcome of checking a one-time code.
#[derive(Debug, Clone, Copy, PartialEq, Eq, Structural)]
pub enum OtpOutcome {
    Verified,
    WrongCode,
    Expired,
    TooManyAttempts,
    NoCode,
}

/// A pending one-time code: its salt, the hash of the code, when it expires
/// (seconds) and the wrong guesses so far.
pub struct OtpRecord {
    pub salt: String,
    pub code_hash: String,
    pub expires_at: i64,
    pub attempts: i64,
}

/// A session: whose it is, when it started and when it expires (seconds).
pub struct Session {
    pub email: String,
    pub created: i64,
    pub expires_at: i64,
}

/// The auth records: sessions by id, account roles by normalized email, and
/// pending one-time codes by normalized email.
pub struct State {
    sessions: Table<Session>,
    users: Table<Role>,
    otp: Table<OtpRecord>,
}

/// The code record stored for a fresh one-time code.
pub open spec fn fresh_code(r: OtpRecord, salt: Seq<char>, code: Seq<char>, now: i64) -> bool {
    &&& r.salt@ == salt
    &&& r.code_hash@ == password_hash(salt, code)
    &&& r.expires_at == now + OTP_TTL_SECS
    &&& r.attempts == 0
}

/// `code` matches the record: the hash of the trimmed code equals the stored
/// hash, byte for byte.
pub open spec fn code_matches(r: OtpRecord, code: Seq<char>) -> bool {
    encode_utf8(password_hash(r.salt@, trim(code))) == encode_utf8(r.code_hash@)
}

/// The outcome of checking `code` against the pending record, if any.
pub open spec fn otp_outcome(rec: Option<OtpRecord>, code: Seq<char>, now: i64) -> OtpOutcome {
    match rec {
        None => OtpOutcome::NoCode,
        Some(r) => if now > r.expires_at {
            OtpOutcome::Expired
        } else if r.attempts >= OTP_MAX_ATTEMPTS {
            OtpOutcome::TooManyAttempts
        } else if code_matches(r, code) {
            OtpOutcome::Verified
        } else if r.attempts + 1 >= OTP_MAX_ATTEMPTS {
            OtpOutcome::TooManyAttempts
        } else {
            OtpOutcome::WrongCode
        },
    }
}

/// The pending codes after checking `code` for `email` at `now`: a
/// verified or expired code is dropped, a locked one stays as it is, and a
/// wrong guess is counted.
pub open spec fn codes_after_check(
    codes: Seq<(Seq<char>, OtpRecord)>,
    email: Seq<char>,
    code: Seq<char>,
    now: i64,
) -> Seq<(Seq<char>, OtpRecord)> {
    match lookup(codes, email) {
        None => codes,
        Some(r) => {
            let o = otp_outcome(Some(r), code, now);
            if o == OtpOutcome::Expired || o == OtpOutcome::Verified {
                erase(codes, email)
            } else if r.attempts >= OTP_MAX_ATTEMPTS {
                codes
            } else {
                upsert(codes, email, OtpRecord { attempts: (r.attempts + 1) as i64, ..r })
            }
        },
    }
}

/// The pending codes after checking each of `guesses` in turn.
pub open spec fn codes_after_checks(
    codes: Seq<(Seq<char>, OtpRecord)>,
    email: Seq<char>,
    guesses: Seq<Seq<char>>,
    now: i64,
) -> Seq<(Seq<char>, OtpRecord)>
    decreases guesses.len(),
{
    if guesses.len() == 0 {
        codes
    } else {
        codes_after_check(codes_after_checks(codes, email, guesses.drop_last(), now), email, guesses.last(), now)
    }
}

/// The attempts a record shows after `n` more wrong guesses from `a`: they
/// count up to the limit and stop there.
pub open spec fn attempts_after(a: i64, n: nat) -> i64 {
    if a >= OTP_MAX_ATTEMPTS {
        a
    } else if a + n >= OTP_MAX_ATTEMPTS {
        OTP_MAX_ATTEMPTS
    } else {
        (a + n) as i64
    }
}

proof fn lemma_wrong_guesses(
    codes: Seq<(Seq<char>, OtpRecord)>,
    email: Seq<char>,
    guesses: Seq<Seq<char>>,
    now: i64,
)
    requires
        lookup(codes, email) matches Some(r) && now <= r.expires_at && 0 <= r.attempts && forall|i: int|
            0 <= i < guesses.len() ==> !code_matches(r, #[trigger] guesses[i]),
    ensures
        lookup(codes_after_checks(codes, email, guesses, now), email) == Some(
            OtpRecord { attempts: attempts_after(lookup(codes, email)->0.attempts, guesses.len()), ..lookup(codes, email)->0 },
        ),
    decreases guesses.len(),
{
    let r = lookup(codes, email)->0;
    if guesses.len() == 0 {
        assert(OtpRecord { attempts: attempts_after(r.attempts, 0), ..r } == r);
    } else {
        let init = guesses.drop_last();
        assert forall|i: int| 0 <= i < init.len() implies !code_matches(r, #[trigger] init[i]) by {
            assert(init[i] == guesses[i]);
        }
        lemma_wrong_guesses(codes, email, init, now);
        let c = codes_after_checks(codes, email, init, now);
        let rec = OtpRecord { attempts: attempts_after(r.attempts, init.len()), ..r };
        assert(lookup(c, email) == Some(rec));
        let g = guesses.last();
        assert(!code_matches(r, g));
        assert(code_matches(rec, g) == code_matches(r, g));
        if rec.attempts < OTP_MAX_ATTEMPTS {
            let next = OtpRecord { attempts: (rec.attempts + 1) as i64, ..rec };
            crate::table::lemma_lookup_upsert(c, email, next, email);
            assert(next == OtpRecord { attempts: attempts_after(r.attempts, guesses.len()), ..r });
        }
    }
}

proof fn lemma_locked_stays(codes: Seq<(Seq<char>, OtpRecord)>, email: Seq<char>, more: Seq<Seq<char>>, now: i64)
    requires
        lookup(codes, email) matches Some(r) && now <= r.expires_at && r.attempts >= OTP_MAX_ATTEMPTS,
    ensures
        codes_after_checks(codes, email, more, now) == codes,
    decreases more.len(),
{
    if more.len() > 0 {
        lemma_locked_stays(codes, email, more.drop_last(), now);
    }
}

/// The lock-out: once a pending code has taken five wrong guesses (counting
/// those before), every further check before it expires is refused, the
/// right code included, and leaves the record as it is, however many
/// checks follow, until a new code is requested.
pub proof fn lemma_otp_lockout(
    codes: Seq<(Seq<char>, OtpRecord)>,
    email: Seq<char>,
    guesses: Seq<Seq<char>>,
    more: Seq<Seq<char>>,
    code: Seq<char>,
    now: i64,
)
    requires
        lookup(codes, email) matches Some(r) && now <= r.expires_at && 0 <= r.attempts && r.attempts
            + guesses.len() >= OTP_MAX_ATTEMPTS && forall|i: int|
            0 <= i < guesses.len() ==> !code_matches(r, #[trigger] guesses[i]),
    ensures
        ({
            let locked = codes_after_checks(codes, email, guesses, now);
            &&& codes_after_checks(locked, email, more, now) == locked
            &&& otp_outcome(lookup(codes_after_checks(locked, email, more, now), email), code, now)
                == OtpOutcome::TooManyAttempts
        }),
{
    lemma_wrong_guesses(codes, email, guesses, now);
    let locked = codes_after_checks(codes, email, guesses, now);
    lemma_locked_stays(locked, email, more, now);
}

impl State {
    pub closed spec fn sessions(&self) -> Seq<(Seq<char>, Session)> {
        self.sessions.view()
    }

    pub closed spec fn users(&self) -> Seq<(Seq<char>, Role)> {
        self.users.view()
    }

    pub closed spec fn codes(&self) -> Seq<(Seq<char>, OtpRecord)> {
        self.otp.view()
    }

    /// No sessions, accounts or pending codes.
    pub fn new() -> (s: State)
        ensures
            s.sessions() == Seq::<(Seq<char>, Session)>::empty(),
            s.users() == Seq::<(Seq<char>, Role)>::empty(),
            s.codes() == Seq::<(Seq<char>, OtpRecord)>::empty(),
    {
        State { sessions: Table::new(), users: Table::new(), otp: Table::new() }
    }

    /// Store a fresh one-time `code` (hashed under `salt`) for the normalized
    /// email, valid for ten minutes from `now`, replacing any earlier one.
    /// Returns the normalized email the code is to be delivered to.
    pub fn request_otp(&mut self, email: &str, code: &str, salt: &str, now: i64) -> (to: String)
        requires
            now <= i64::MAX - OTP_TTL_SECS,
        ensures
            to@ == normal_email(email@),
            lookup(final(self).codes(), to@) matches Some(r) && fresh_code(r, salt@, code@, now)
                && final(self).codes() == upsert(old(self).codes(), to@, r),
            final(self).sessions() == old(self).sessions(),
            final(self).users() == old(self).users(),
    {
        let email = normalize_email(email);
        let record = OtpRecord {
            salt: owned(salt),
            code_hash: hash_password(salt, code),
            expires_at: now + OTP_TTL_SECS,
            attempts: 0,
        };
        let ghost r = record;
        let ghost pre = self.otp.view();
        self.otp.insert(email.as_str(), record);
        proof {
            crate::table::lemma_lookup_upsert(pre, email@, r, email@);
        }
        email
    }

    /// Check a one-time code for `email`. A correct code is used up; an
    /// expired one is dropped; each wrong guess counts, and from the fifth on
    /// even the right code is refused.
    pub fn verify_otp(&mut self, email: &str, code: &str, now: i64) -> (o: OtpOutcome)
        ensures
            o == otp_outcome(lookup(old(self).codes(), normal_email(email@)), code@, now),
            match lookup(old(self).codes(), normal_email(email@)) {
                None => final(self).codes() == old(self).codes(),
                Some(r) => if o == OtpOutcome::Expired || o == OtpOutcome::Verified {
                    final(self).codes() == crate::table::erase(old(self).codes(), normal_email(email@))
                } else if r.attempts >= OTP_MAX_ATTEMPTS {
                    final(self).codes() == old(self).codes()
                } else {
                    lookup(final(self).codes(), normal_email(email@)) matches Some(r2)
                        && r2 == (OtpRecord { attempts: r2.attempts, ..r })
                        && r2.attempts == r.attempts + 1
                        && final(self).codes() == upsert(old(self).codes(), normal_email(email@), r2)
                },
            },
            final(self).codes() == codes_after_check(old(self).codes(), normal_email(email@), code@, now),
            final(self).sessions() == old(self).sessions(),
            final(self).users() == old(self).users(),
    {
        let email = normalize_email(email);
        let rec = match self.otp.get(email.as_str()) {
            Some(r) => OtpRecord {
                salt: r.salt.clone(),
                code_hash: r.code_hash.clone(),
                expires_at: r.expires_at,
                attempts: r.attempts,
            },
            None => return OtpOutcome::NoCode,
        };
        if now > rec.expires_at {
            self.otp.remove(email.as_str());
            return OtpOutcome::Expired;
        }
        if rec.attempts >= OTP_MAX_ATTEMPTS {
            return OtpOutcome::TooManyAttempts;
        }
        let t = trim_str(code);
        let ts = string_of(&t);
        let h = hash_password(rec.salt.as_str(), ts.as_str());
        if constant_time_eq(h.as_str(), rec.code_hash.as_str()) {
            self.otp.remove(email.as_str());
            return OtpOutcome::Verified;
        }
        let attempts = rec.attempts + 1;
        let updated = OtpRecord { attempts, ..rec };
        let ghost r2 = updated;
        let ghost pre = self.otp.view();
        self.otp.insert(email.as_str(), updated);
        proof {
            crate::table::lemma_lookup_upsert(pre, email@, r2, email@);
        }
        if attempts >= OTP_MAX_ATTEMPTS {
            OtpOutcome::TooManyAttempts
        } else {
            OtpOutcome::WrongCode
        }
    }

    /// Ensure an account exists for the normalized email, with the user role
    /// when new. Idempotent.
    pub fn ensure_account(&mut self, email: &str)
        ensures
            lookup(old(self).users(), normal_email(email@)) is Some ==> final(self).users() == old(self).users(),
            lookup(old(self).users(), normal_email(email@)) is None ==> final(self).users() == upsert(
                old(self).users(),
                normal_email(email@),
                Role::User,
            ),
            final(self).sessions() == old(self).sessions(),
            final(self).codes() == old(self).codes(),
    {
        let email = normalize_email(email);
        if self.users.get(email.as_str()).is_some() {
            return;
        }
        self.users.insert(email.as_str(), Role::User);
    }

    /// Record `role` for an account (the admin grant).
    pub fn set_role(&mut self, email: &str, role: Role)
        ensures
            final(self).users() == upsert(old(self).users(), normal_email(email@), role),
            final(self).sessions() == old(self).sessions(),
            final(self).codes() == old(self).codes(),
    {
        let email = normalize_email(email);
        self.users.insert(email.as_str(), role);
    }

    /// Start a session for `email` under the random `id`, lasting 60 days
    /// from `now`. Returns the id.
    pub fn create_session(&mut self, email: &str, id: &str, now: i64) -> (r: String)
        requires
            now <= i64::MAX - SESSION_TTL_SECS,
        ensures
            r@ == id@,
            lookup(final(self).sessions(), id@) matches Some(s) && s.email@ == email@ && s.created
                == now && s.expires_at == now + SESSION_TTL_SECS && final(self).sessions() == upsert(
                old(self).sessions(),
                id@,
                s,
            ),
            final(self).users() == old(self).users(),
            final(self).codes() == old(self).codes(),
    {
        let session = Session { email: owned(email), created: now, expires_at: now + SESSION_TTL_SECS };
        let ghost s = session;
        let ghost pre = self.sessions.view();
        self.sessions.insert(id, session);
        proof {
            crate::table::lemma_lookup_upsert(pre, id@, s, id@);
        }
        owned(id)
    }

    /// The session id a `Cookie` header carries, if any.
    pub open spec fn cookie_session(cookie: Option<&str>) -> Option<Seq<char>> {
        match cookie {
            Some(c) => cookie_in(split_on(c@, ';'), COOKIE_NAME@),
            None => None,
        }
    }

    /// The authenticated user for a request's `Cookie` header at `now`: its
    /// session must exist and not have expired (an expired one is deleted);
    /// the role comes from the account, `User` when there is none.
    pub fn current_user(&mut self, cookie: Option<&str>, now: i64) -> (r: Option<AuthUser>)
        ensures
            match State::cookie_session(cookie) {
                None => r is None && final(self).sessions() == old(self).sessions(),
                Some(id) => match lookup(old(self).sessions(), id) {
                    None => r is None && final(self).sessions() == old(self).sessions(),
                    Some(s) => if now > s.expires_at {
                        r is None && final(self).sessions() == crate::table::erase(old(self).sessions(), id)
                    } else {
                        r matches Some(u) && u.email@ == s.email@ && u.role == (match lookup(
                            old(self).users(),
                            s.email@,
                        ) {
                            Some(role) => role,
                            None => Role::User,
                        }) && final(self).sessions() == old(self).sessions()
                    },
                },
            },
            final(self).users() == old(self).users(),
            final(self).codes() == old(self).codes(),
    {
        let c = match cookie {
            Some(c) => c,
            None => return None,
        };
        let id = match parse_cookie(c, COOKIE_NAME) {
            Some(id) => id,
            None => return None,
        };
        let (email, expires_at) = match self.sessions.get(id.as_str()) {
            Some(s) => (s.email.clone(), s.expires_at),
            None => return None,
        };
        if now > expires_at {
            self.sessions.remove(id.as_str());
            return None;
        }
        let role = match self.users.get(email.as_str()) {
            Some(r) => *r,
            None => Role::User,
        };
        Some(AuthUser { email, role })
    }

    /// Whether the request's user satisfies `role`: an admin satisfies every
    /// role, a user only the user role, nobody none.
    pub fn require_role(&mut self, cookie: Option<&str>, role: Role, now: i64) -> (r: bool)
        ensures
            r == (match State::cookie_session(cookie) {
                None => false,
                Some(id) => match lookup(old(self).sessions(), id) {
                    None => false,
                    Some(s) => now <= s.expires_at && (match lookup(old(self).users(), s.email@) {
                        Some(Role::Admin) => true,
                        Some(Role::User) => role == Role::User,
                        None => role == Role::User,
                    }),
                },
            }),
    {
        match self.current_user(cookie, now) {
            Some(u) => match u.role {
                Role::Admin => true,
                actual => actual == role,
            },
            None => false,
        }
    }

    /// End the session a `Cookie` header names, if any.
    pub fn delete_session(&mut self, cookie: Option<&str>)
        ensures
            match State::cookie_session(cookie) {
                Some(id) => final(self).sessions() == crate::table::erase(old(self).sessions(), id),
                None => final(self).sessions() == old(self).sessions(),
            },
            final(self).users() == old(self).users(),
            final(self).codes() == old(self).codes(),
    {
        if let Some(c) = cookie {
            if let Some(id) = parse_cookie(c, COOKIE_NAME) {
                self.sessions.remove(id.as_str());
            }
        }
    }
}


// ---------------------------------------------------------------------------
// Laws of one-time codes and session cookies
// ---------------------------------------------------------------------------

/// A code just requested verifies when it is entered as issued (with no
/// blanks at its ends) at any time up to its expiry.
pub proof fn lemma_requested_code_verifies(
    codes: Seq<(Seq<char>, OtpRecord)>,
    to: Seq<char>,
    salt: Seq<char>,
    code: Seq<char>,
    now: i64,
    later: i64,
)
    requires
        lookup(codes, to) matches Some(r) && fresh_code(r, salt, code, now),
        trim(code) == code,
        later <= now + OTP_TTL_SECS,
    ensures
        otp_outcome(lookup(codes, to), code, later) == OtpOutcome::Verified,
{
}

/// A code that was used up (verified or expired) is gone: checking the same
/// address again finds no code pending.
pub proof fn lemma_spent_code_is_gone(
    codes: Seq<(Seq<char>, OtpRecord)>,
    email: Seq<char>,
    code: Seq<char>,
    now: i64,
)
    requires
        keys_sorted(codes),
    ensures
        otp_outcome(lookup(erase(codes, email), email), code, now) == OtpOutcome::NoCode,
{
    lemma_lookup_erase(codes, email, email);
}

/// Once the wrong guesses reach the cap, every code is refused until the
/// record expires, the right one included.
pub proof fn lemma_locked_code_refuses_all(r: OtpRecord, code: Seq<char>, now: i64)
    requires
        r.attempts >= OTP_MAX_ATTEMPTS,
        now <= r.expires_at,
    ensures
        otp_outcome(Some(r), code, now) == OtpOutcome::TooManyAttempts,
{
}

/// Past its expiry a code is refused as expired, whatever is entered.
pub proof fn lemma_expired_code_refused(r: OtpRecord, code: Seq<char>, now: i64)
    requires
        now > r.expires_at,
    ensures
        otp_outcome(Some(r), code, now) == OtpOutcome::Expired,
{
}

proof fn lemma_split_without_sep(s: Seq<char>, c: char)
    requires
        forall|i: int| 0 <= i < s.len() ==> s[i] != c,
    ensures
        split_on(s, c) == seq![s],
    decreases s.len(),
{
    if s.len() == 0 {
        assert(s =~= Seq::<char>::empty());
    } else {
        let t = s.drop_last();
        assert forall|i: int| 0 <= i < t.len() implies t[i] != c by {
            assert(t[i] == s[i]);
        }
        lemma_split_without_sep(t, c);
        assert(s.last() == s[s.len() - 1]);
        assert(t.push(s.last()) =~= s);
        let p = split_on(t, c);
        assert(p.update(p.len() - 1, p.last().push(s.last())) =~= seq![s]);
    }
}

proof fn lemma_trim_unchanged(s: Seq<char>)
    requires
        s.len() == 0 || (!is_ws(s[0]) && !is_ws(s.last())),
    ensures
        trim(s) == s,
{
}

/// The pair a browser sends back for a session cookie names that session:
/// reading the session cookie from `gsd_session=<id>` gives `id`, for any id
/// without `;` and without blanks at its ends.
pub proof fn lemma_session_cookie_round_trip(id: Seq<char>)
    requires
        forall|i: int| 0 <= i < id.len() ==> id[i] != ';',
        id.len() == 0 || (!is_ws(id[0]) && !is_ws(id.last())),
    ensures
        cookie_in(split_on("gsd_session="@ + id, ';'), COOKIE_NAME@) == Some(id),
{
    reveal_strlit("gsd_session=");
    reveal_strlit("gsd_session");
    let p = "gsd_session="@ + id;
    assert forall|i: int| 0 <= i < p.len() implies p[i] != ';' by {
        if i >= 12 {
            assert(p[i] == id[i - 12]);
        }
    }
    lemma_split_without_sep(p, ';');
    let ps = split_on(p, ';');
    assert(ps[0] == p);
    assert(crate::text::is_first2(p, '=', '=', 11));
    crate::text::lemma_find2_unique(p, '=', '=', 11);
    assert(find(p, '=') == Some(11int));
    assert(p.subrange(0, 11) =~= "gsd_session"@);
    lemma_trim_unchanged("gsd_session"@);
    assert(p.subrange(12, p.len() as int) =~= id);
    lemma_trim_unchanged(id);
}

// ---------------------------------------------------------------------------
// Recorded delivery
// ---------------------------------------------------------------------------

/// The code most recently recorded for `email`, if any.
pub open spec fn last_code_of(log: Seq<(Seq<char>, Seq<char>)>, email: Seq<char>) -> Option<Seq<char>>
    decreases log.len(),
{
    if log.len() == 0 {
        None
    } else if log.last().0 == email {
        Some(log.last().1)
    } else {
        last_code_of(log.drop_last(), email)
    }
}

/// Delivery that records each code instead of sending it: for development
/// and tests.
pub struct LogDeliver {
    delivered: Vec<(String, String)>,
}

impl Default for LogDeliver {
    fn default() -> (d: LogDeliver)
        ensures
            d.log() == Seq::<(Seq<char>, Seq<char>)>::empty(),
    {
        LogDeliver::new()
    }
}

impl LogDeliver {
    /// The (address, code) pairs delivered so far, oldest first.
    pub closed spec fn log(&self) -> Seq<(Seq<char>, Seq<char>)> {
        Seq::new(self.delivered@.len(), |i: int| (self.delivered@[i].0@, self.delivered@[i].1@))
    }

    pub fn new() -> (d: LogDeliver)
        ensures
            d.log() == Seq::<(Seq<char>, Seq<char>)>::empty(),
    {
        let d = LogDeliver { delivered: Vec::new() };
        assert(d.log() =~= Seq::<(Seq<char>, Seq<char>)>::empty());
        d
    }

    /// Record that `code` went to `email`.
    pub fn deliver(&mut self, email: &str, code: &str)
        ensures
            final(self).log() == old(self).log().push((email@, code@)),
    {
        self.delivered.push((owned(email), owned(code)));
        assert(self.log() =~= old(self).log().push((email@, code@)));
    }

    /// The code most recently delivered to the normalized `email`.
    pub fn last_code(&self, email: &str) -> (r: Option<String>)
        ensures
            match r {
                Some(c) => last_code_of(self.log(), normal_email(email@)) == Some(c@),
                None => last_code_of(self.log(), normal_email(email@)) is None,
            },
    {
        let em = normalize_email(email);
        let mut i: usize = self.delivered.len();
        assert(self.log().subrange(0, i as int) =~= self.log());
        while i > 0
            invariant
                i <= self.delivered@.len(),
                em@ == normal_email(email@),
                last_code_of(self.log(), em@) == last_code_of(self.log().subrange(0, i as int), em@),
            decreases i,
        {
            let ghost pre = self.log().subrange(0, i as int);
            assert(pre.last() == self.log()[i - 1]);
            assert(pre.drop_last() =~= self.log().subrange(0, i - 1));
            if str_eq(self.delivered[i - 1].0.as_str(), em.as_str()) {
                return Some(self.delivered[i - 1].1.clone());
            }
            i = i - 1;
        }
        None
    }
}

// ---------------------------------------------------------------------------
// Delivery over the mail sidecar
// ---------------------------------------------------------------------------

/// Subject line of the one-time code email.
pub const OTP_EMAIL_SUBJECT: &'static str = "Innskráningarkóði — Golfsetrið Akureyri";

/// The HTML part of the code email.
pub open spec fn otp_email_html(code: Seq<char>) -> Seq<char> {
    "<p>Innskráningarkóðinn þinn er: <strong>"@ + code
        + "</strong></p><p>Kóðinn rennur út eftir 10 mínútur.</p>"@
}

/// The plain-text part of the code email.
pub open spec fn otp_email_text(code: Seq<char>) -> Seq<char> {
    "Innskráningarkóðinn þinn er: "@ + code + "\nKóðinn rennur út eftir 10 mínútur."@
}

/// The JSON object posted to the sidecar: `to`, `subject`, `html`, `text`.
pub open spec fn otp_email_json(email: Seq<char>, code: Seq<char>) -> Seq<char> {
    "{\"to\":"@ + json_string(email) + ",\"subject\":"@ + json_string(OTP_EMAIL_SUBJECT@)
        + ",\"html\":"@ + json_string(otp_email_html(code)) + ",\"text\":"@ + json_string(
        otp_email_text(code),
    ) + "}"@
}

/// The JSON body that asks the sidecar to mail `code` to `email`.
pub fn otp_email_body(email: &str, code: &str) -> (r: String)
    ensures
        r@ == otp_email_json(email@, code@),
{
    let mut html: Vec<char> = Vec::new();
    append_str(&mut html, "<p>Innskráningarkóðinn þinn er: <strong>");
    append_str(&mut html, code);
    append_str(&mut html, "</strong></p><p>Kóðinn rennur út eftir 10 mínútur.</p>");
    let html = string_of(&html);
    let mut text: Vec<char> = Vec::new();
    append_str(&mut text, "Innskráningarkóðinn þinn er: ");
    append_str(&mut text, code);
    append_str(&mut text, "\nKóðinn rennur út eftir 10 mínútur.");
    let text = string_of(&text);
    let mut v: Vec<char> = Vec::new();
    append_str(&mut v, "{\"to\":");
    push_json_string(&mut v, email);
    append_str(&mut v, ",\"subject\":");
    push_json_string(&mut v, OTP_EMAIL_SUBJECT);
    append_str(&mut v, ",\"html\":");
    push_json_string(&mut v, html.as_str());
    append_str(&mut v, ",\"text\":");
    push_json_string(&mut v, text.as_str());
    append_str(&mut v, "}");
    string_of(&v)
}

/// The request line and headers of the sidecar POST for a body of `len`
/// bytes.
pub open spec fn sidecar_head(port: u16, len: nat) -> Seq<char> {
    "POST /email HTTP/1.1\r\nHost: 127.0.0.1:"@ + nat_digits(port as nat)
        + "\r\nContent-Type: application/json\r\nContent-Length: "@ + nat_digits(len)
        + "\r\nConnection: close\r\n\r\n"@
}

pub fn sidecar_request_head(port: u16, len: usize) -> (r: String)
    ensures
        r@ == sidecar_head(port, len as nat),
{
    let mut v: Vec<char> = Vec::new();
    append_str(&mut v, "POST /email HTTP/1.1\r\nHost: 127.0.0.1:");
    append_chars(&mut v, &u64_digits(port as u64));
    append_str(&mut v, "\r\nContent-Type: application/json\r\nContent-Length: ");
    append_chars(&mut v, &u64_digits(len as u64));
    append_str(&mut v, "\r\nConnection: close\r\n\r\n");
    string_of(&v)
}

/// `\r\n\r\n` starts at `i`.
pub open spec fn blank_line_at(resp: Seq<u8>, i: int) -> bool {
    0 <= i && i + 4 <= resp.len() && resp[i] == 13 && resp[i + 1] == 10 && resp[i + 2] == 13 && resp[i + 3] == 10
}

/// The bytes hold the blank line that ends the response headers.
pub open spec fn has_header_end(resp: Seq<u8>) -> bool {
    exists|i: int| #[trigger] blank_line_at(resp, i)
}

/// Whether the response read so far holds `\r\n\r\n`, so reading can stop.
pub fn header_complete(resp: &[u8]) -> (r: bool)
    ensures
        r == has_header_end(resp@),
{
    let n = resp.len();
    if n < 4 {
        return false;
    }
    let mut i: usize = 0;
    while i <= n - 4
        invariant
            n == resp@.len(),
            n >= 4,
            i <= n - 3,
            forall|j: int| 0 <= j < i ==> !#[trigger] blank_line_at(resp@, j),
        decreases n - i,
    {
        if resp[i] == 13 && resp[i + 1] == 10 && resp[i + 2] == 13 && resp[i + 3] == 10 {
            assert(blank_line_at(resp@, i as int));
            return true;
        }
        i = i + 1;
    }
    assert forall|j: int| !#[trigger] blank_line_at(resp@, j) by {
        if 0 <= j && j < i {
        }
    }
    false
}

/// The sidecar's answer accepts the email: the status code, the second word
/// of the first line of the (UTF-8) response, parses as a `u16` in 200..300.
pub open spec fn status_accepted(resp: Seq<u8>) -> bool {
    let text = if valid_utf8(resp) {
        decode_utf8(resp)
    } else {
        Seq::<char>::empty()
    };
    let line = match first_line(text) {
        Some(l) => l,
        None => Seq::<char>::empty(),
    };
    let ws = words(line);
    ws.len() >= 2 && (match parse_unsigned_spec(ws[1], 65535) {
        Some(n) => 200 <= n && n < 300,
        None => false,
    })
}

/// Whether the sidecar accepted the email, judged from its response bytes.
pub fn sidecar_accepted(resp: &[u8]) -> (r: bool)
    ensures
        r == status_accepted(resp@),
{
    let text = match text_from_utf8(vstd::slice::slice_to_vec(resp)) {
        Some(t) => t,
        None => String::new(),
    };
    let chars = chars_of(text.as_str());
    let line = match first_line_chars(&chars) {
        Some(l) => l,
        None => Vec::new(),
    };
    let ws = words_chars(&line);
    if ws.len() < 2 {
        return false;
    }
    match parse_unsigned(&ws[1], 65535) {
        Some(n) => 200 <= n && n < 300,
        None => false,
    }
}

// ---------------------------------------------------------------------------
// Login form and error page
// ---------------------------------------------------------------------------

/// What a submitted login form asks for.
pub enum LoginStep {
    /// No email given: show the form again asking for it.
    AskEmail,
    /// Email and code given: check the code for the normalized email.
    Verify { email: String, code: String },
    /// Only an email given: send a code to the normalized email.
    SendCode { email: String },
}

/// The step a login form submission asks for, from its `email` and `code`
/// fields (empty when absent).
pub fn login_step(email_field: &str, code_field: &str) -> (s: LoginStep)
    ensures
        trim(email_field@).len() == 0 ==> s is AskEmail,
        trim(email_field@).len() > 0 && trim(code_field@).len() > 0 ==> (s matches LoginStep::Verify {
            email,
            code,
        } && email@ == normal_email(email_field@) && code@ == trim(code_field@)),
        trim(email_field@).len() > 0 && trim(code_field@).len() == 0 ==> (s matches LoginStep::SendCode {
            email,
        } && email@ == normal_email(email_field@)),
{
    let e = trim_str(email_field);
    if e.len() == 0 {
        return LoginStep::AskEmail;
    }
    let email = normalize_email(email_field);
    let c = trim_str(code_field);
    if c.len() == 0 {
        LoginStep::SendCode { email }
    } else {
        LoginStep::Verify { email, code: string_of(&c) }
    }
}

/// Prompt shown when the login form comes without an email.
pub const ASK_EMAIL_MESSAGE: &'static str = "Sláðu inn netfangið þitt.";

/// What the login page shows after a code check.
pub enum LoginReply {
    /// The code was right: open the account, start a session, go to `/my`.
    SignedIn,
    /// Show the form again with `error`, the email filled in, and the code
    /// field when `sent`.
    Form { error: String, email: String, sent: bool },
}

/// The message shown for a refused code, and whether the code field stays.
pub open spec fn refusal(o: OtpOutcome) -> (Seq<char>, bool) {
    match o {
        OtpOutcome::Expired => ("Kóðinn er útrunninn. Biðja um nýjan kóða."@, false),
        OtpOutcome::TooManyAttempts => ("Of margar tilraunir. Biðja um nýjan kóða."@, false),
        OtpOutcome::NoCode => ("Enginn kóði í bið. Biðja um kóða fyrst."@, false),
        _ => ("Rangur kóði. Reyndu aftur."@, true),
    }
}

/// The login page's answer to a code check for `email`.
pub fn verify_reply(outcome: OtpOutcome, email: &str) -> (r: LoginReply)
    ensures
        outcome == OtpOutcome::Verified ==> r is SignedIn,
        outcome != OtpOutcome::Verified ==> (r matches LoginReply::Form { error, email: e, sent } && error@
            == refusal(outcome).0 && e@ == email@ && sent == refusal(outcome).1),
{
    let (msg, sent) = match outcome {
        OtpOutcome::Verified => return LoginReply::SignedIn,
        OtpOutcome::Expired => ("Kóðinn er útrunninn. Biðja um nýjan kóða.", false),
        OtpOutcome::TooManyAttempts => ("Of margar tilraunir. Biðja um nýjan kóða.", false),
        OtpOutcome::NoCode => ("Enginn kóði í bið. Biðja um kóða fyrst.", false),
        OtpOutcome::WrongCode => ("Rangur kóði. Reyndu aftur.", true),
    };
    LoginReply::Form { error: owned(msg), email: owned(email), sent }
}

/// What the development login endpoint answers.
pub enum DevLogin {
    /// Dev login is switched off: answer 404 as if the route did not exist.
    NotFound,
    /// Anything but POST: 405.
    MethodNotAllowed,
    /// No email in the body: 400.
    EmailRequired,
    /// Open the account and start a session for the normalized email.
    SignIn { email: String },
}

/// The development login decision from whether it is enabled, whether the
/// request is a POST, and the body's `email` field (empty when absent).
pub fn dev_login_step(enabled: bool, is_post: bool, email_field: &str) -> (r: DevLogin)
    ensures
        !enabled ==> r is NotFound,
        enabled && !is_post ==> r is MethodNotAllowed,
        enabled && is_post && trim(email_field@).len() == 0 ==> r is EmailRequired,
        enabled && is_post && trim(email_field@).len() > 0 ==> (r matches DevLogin::SignIn { email }
            && email@ == normal_email(email_field@)),
{
    if !enabled {
        return DevLogin::NotFound;
    }
    if !is_post {
        return DevLogin::MethodNotAllowed;
    }
    if trim_str(email_field).len() == 0 {
        return DevLogin::EmailRequired;
    }
    DevLogin::SignIn { email: normalize_email(email_field) }
}

/// `c` with `<`, `>` and `&` turned into HTML entities.
pub open spec fn escape_html_char(c: char) -> Seq<char> {
    if c == '<' {
        "&lt;"@
    } else if c == '>' {
        "&gt;"@
    } else if c == '&' {
        "&amp;"@
    } else {
        seq![c]
    }
}

/// Text with `<`, `>` and `&` escaped.
pub open spec fn escape_html(s: Seq<char>) -> Seq<char>
    decreases s.len(),
{
    if s.len() == 0 {
        seq![]
    } else {
        escape_html(s.drop_last()) + escape_html_char(s.last())
    }
}

/// The bare server error page around the escaped message.
pub open spec fn error_page(msg: Seq<char>) -> Seq<char> {
    "<!doctype html><meta charset=utf-8><title>Error</title><body style=\"font:16px system-ui;padding:40px\"><h1>Server error</h1><pre>"@
        + escape_html(msg) + "</pre></body>"@
}

/// `text` with `<`, `>` and `&` turned into HTML entities.
pub fn html_escape(text: &str) -> (r: String)
    ensures
        r@ == escape_html(text@),
{
    let m = chars_of(text);
    let mut v: Vec<char> = Vec::new();
    let mut i: usize = 0;
    while i < m.len()
        invariant
            i <= m@.len(),
            m@ == text@,
            v@ == escape_html(m@.subrange(0, i as int)),
        decreases m@.len() - i,
    {
        let c = m[i];
        assert(m@.subrange(0, i + 1).drop_last() =~= m@.subrange(0, i as int));
        if c == '<' {
            append_str(&mut v, "&lt;");
        } else if c == '>' {
            append_str(&mut v, "&gt;");
        } else if c == '&' {
            append_str(&mut v, "&amp;");
        } else {
            v.push(c);
        }
        assert(v@ =~= escape_html(m@.subrange(0, i + 1)));
        i = i + 1;
    }
    assert(m@.subrange(0, m@.len() as int) =~= m@);
    string_of(&v)
}

/// The HTML of the bare 500 page for `msg`.
pub fn server_err_raw(msg: &str) -> (r: String)
    ensures
        r@ == error_page(msg@),
{
    let mut v: Vec<char> = Vec::new();
    append_str(&mut v, "<!doctype html><meta charset=utf-8><title>Error</title><body style=\"font:16px system-ui;padding:40px\"><h1>Server error</h1><pre>");
    let e = html_escape(msg);
    append_str(&mut v, e.as_str());
    append_str(&mut v, "</pre></body>");
    string_of(&v)
}

} // verus!
