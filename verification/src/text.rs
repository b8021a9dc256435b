//! Character-level text helpers shared by the parsers and formatters: turning
//! strings into character vectors and back, ASCII classification, whitespace
//! trimming, and decimal integer formatting and parsing.

use vstd::prelude::*;
use vstd::utf8::{decode_utf8, valid_utf8};

verus! {

// ---------------------------------------------------------------------------
// Strings <-> character vectors
// ---------------------------------------------------------------------------

/// `String::push`: appends one character.
#[verifier::external_body]
pub(crate) fn push_char(s: &mut String, c: char)
    ensures
        final(s)@ == old(s)@.push(c),
{
    s.push(c);
}

/// The characters of `s`, in order.
pub fn chars_of(s: &str) -> (v: Vec<char>)
    ensures
        v@ == s@,
{
    let n = s.unicode_len();
    let mut v: Vec<char> = Vec::new();
    let mut i: usize = 0;
    while i < n
        invariant
            n == s@.len(),
            i <= n,
            v@ == s@.subrange(0, i as int),
        decreases n - i,
    {
        v.push(s.get_char(i));
        i = i + 1;
    }
    v
}

/// A `String` holding exactly the characters of `v`.
pub fn string_of(v: &Vec<char>) -> (s: String)
    ensures
        s@ == v@,
{
    let mut s = String::new();
    let mut i: usize = 0;
    while i < v.len()
        invariant
            i <= v.len(),
            s@ == v@.subrange(0, i as int),
        decreases v.len() - i,
    {
        push_char(&mut s, v[i]);
        i = i + 1;
    }
    s
}

/// Appends every character of `w` to `v`.
pub fn append_chars(v: &mut Vec<char>, w: &Vec<char>)
    ensures
        final(v)@ == old(v)@ + w@,
{
    let mut i: usize = 0;
    while i < w.len()
        invariant
            i <= w.len(),
            v@ == old(v)@ + w@.subrange(0, i as int),
        decreases w.len() - i,
    {
        v.push(w[i]);
        i = i + 1;
    }
}

/// Appends every character of `s` to `v`.
pub fn append_str(v: &mut Vec<char>, s: &str)
    ensures
        final(v)@ == old(v)@ + s@,
{
    let w = chars_of(s);
    append_chars(v, &w);
}

/// The characters `v[lo..hi]`.
pub fn slice_chars(v: &Vec<char>, lo: usize, hi: usize) -> (r: Vec<char>)
    requires
        lo <= hi <= v.len(),
    ensures
        r@ == v@.subrange(lo as int, hi as int),
{
    let mut r: Vec<char> = Vec::new();
    let mut i = lo;
    while i < hi
        invariant
            lo <= i <= hi,
            hi <= v.len(),
            r@ == v@.subrange(lo as int, i as int),
        decreases hi - i,
    {
        r.push(v[i]);
        i = i + 1;
    }
    r
}

/// Whether `a` and `b` hold the same characters.
pub fn chars_eq(a: &Vec<char>, b: &Vec<char>) -> (r: bool)
    ensures
        r == (a@ == b@),
{
    if a.len() != b.len() {
        return false;
    }
    let mut i: usize = 0;
    while i < a.len()
        invariant
            a.len() == b.len(),
            i <= a.len(),
            forall|j: int| 0 <= j < i ==> a@[j] == b@[j],
        decreases a.len() - i,
    {
        if a[i] != b[i] {
            return false;
        }
        i = i + 1;
    }
    assert(a@ =~= b@);
    true
}

/// Whether the characters of `a` equal those of the string `s`.
pub fn chars_eq_str(a: &Vec<char>, s: &str) -> (r: bool)
    ensures
        r == (a@ == s@),
{
    let b = chars_of(s);
    chars_eq(a, &b)
}

/// Whether two strings hold the same characters.
pub fn str_eq(a: &str, b: &str) -> (r: bool)
    ensures
        r == (a@ == b@),
{
    let x = chars_of(a);
    chars_eq_str(&x, b)
}

/// A `String` holding the characters of `s`.
pub fn owned(s: &str) -> (r: String)
    ensures
        r@ == s@,
{
    String::from_str(s)
}

/// A copy of an optional string.
pub fn clone_opt_string(o: &Option<String>) -> (r: Option<String>)
    ensures
        r == *o,
{
    match o {
        Some(s) => Some(s.clone()),
        None => None,
    }
}

/// An optional string, by its characters.
pub open spec fn opt_chars(o: Option<String>) -> Option<Seq<char>> {
    match o {
        Some(s) => Some(s@),
        None => None,
    }
}

/// Whether two optional strings hold the same characters.
pub fn opt_string_eq(a: &Option<String>, b: &Option<String>) -> (r: bool)
    ensures
        r == (opt_chars(*a) == opt_chars(*b)),
{
    match (a, b) {
        (Some(x), Some(y)) => str_eq(x.as_str(), y.as_str()),
        (None, None) => true,
        _ => false,
    }
}

/// Whether `v` begins with the characters `p`.
pub fn starts_with(v: &Vec<char>, p: &Vec<char>) -> (r: bool)
    ensures
        r == (p@.len() <= v@.len() && v@.subrange(0, p@.len() as int) == p@),
{
    if p.len() > v.len() {
        return false;
    }
    let mut i: usize = 0;
    while i < p.len()
        invariant
            p.len() <= v.len(),
            i <= p.len(),
            forall|j: int| 0 <= j < i ==> v@[j] == p@[j],
        decreases p.len() - i,
    {
        if v[i] != p[i] {
            assert(v@.subrange(0, p@.len() as int)[i as int] != p@[i as int]);
            return false;
        }
        i = i + 1;
    }
    assert(v@.subrange(0, p@.len() as int) =~= p@);
    true
}

/// Whether `v` ends with the characters `p`.
pub fn ends_with(v: &Vec<char>, p: &Vec<char>) -> (r: bool)
    ensures
        r == (p@.len() <= v@.len() && v@.subrange(v@.len() - p@.len(), v@.len() as int) == p@),
{
    if p.len() > v.len() {
        return false;
    }
    let off = v.len() - p.len();
    let mut i: usize = 0;
    while i < p.len()
        invariant
            p.len() <= v.len(),
            off == v.len() - p.len(),
            i <= p.len(),
            forall|j: int| 0 <= j < i ==> v@[off + j] == p@[j],
        decreases p.len() - i,
    {
        if v[off + i] != p[i] {
            assert(v@.subrange(off as int, v@.len() as int)[i as int] != p@[i as int]);
            return false;
        }
        i = i + 1;
    }
    assert(v@.subrange(off as int, v@.len() as int) =~= p@);
    true
}

// ---------------------------------------------------------------------------
// Searching and splitting
// ---------------------------------------------------------------------------

/// `i` is the position of the first `a` or `b` in `s`.
pub open spec fn is_first2(s: Seq<char>, a: char, b: char, i: int) -> bool {
    &&& 0 <= i < s.len()
    &&& (s[i] == a || s[i] == b)
    &&& forall|j: int| 0 <= j < i ==> s[j] != a && s[j] != b
}

/// The position of the first `a` or `b` in `s`, if any.
pub open spec fn find2(s: Seq<char>, a: char, b: char) -> Option<int> {
    if exists|i: int| is_first2(s, a, b, i) {
        Some(choose|i: int| is_first2(s, a, b, i))
    } else {
        None
    }
}

/// The position of the first `c` in `s`, if any (`str::find`).
pub open spec fn find(s: Seq<char>, c: char) -> Option<int> {
    find2(s, c, c)
}

pub proof fn lemma_find2_unique(s: Seq<char>, a: char, b: char, i: int)
    requires
        is_first2(s, a, b, i),
    ensures
        find2(s, a, b) == Some(i),
{
    let k = choose|k: int| is_first2(s, a, b, k);
    assert(is_first2(s, a, b, k));
    if k < i {
        assert(s[k] != a && s[k] != b);
    } else if k > i {
        assert(s[i] != a && s[i] != b);
    }
}

/// The position of the first `a` or `b` in `v`, if any.
pub fn find2_chars(v: &Vec<char>, a: char, b: char) -> (r: Option<usize>)
    ensures
        match r {
            Some(i) => find2(v@, a, b) == Some(i as int) && i < v@.len(),
            None => find2(v@, a, b) is None,
        },
{
    let mut i: usize = 0;
    while i < v.len()
        invariant
            i <= v.len(),
            forall|j: int| 0 <= j < i ==> v@[j] != a && v@[j] != b,
        decreases v.len() - i,
    {
        if v[i] == a || v[i] == b {
            proof {
                lemma_find2_unique(v@, a, b, i as int);
            }
            return Some(i);
        }
        i = i + 1;
    }
    assert(!exists|k: int| is_first2(v@, a, b, k));
    None
}

/// The position of the first `c` in `v`, if any.
pub fn find_char(v: &Vec<char>, c: char) -> (r: Option<usize>)
    ensures
        match r {
            Some(i) => find(v@, c) == Some(i as int) && i < v@.len(),
            None => find(v@, c) is None,
        },
{
    find2_chars(v, c, c)
}

/// `p` occurs in `s` starting at `i`.
pub open spec fn occurs_at(s: Seq<char>, p: Seq<char>, i: int) -> bool {
    0 <= i && i + p.len() <= s.len() && s.subrange(i, i + p.len()) == p
}

/// `i` is where `p` first occurs in `s`.
pub open spec fn is_first_at(s: Seq<char>, p: Seq<char>, i: int) -> bool {
    occurs_at(s, p, i) && forall|j: int| 0 <= j < i ==> !#[trigger] occurs_at(s, p, j)
}

/// `str::find` with a string pattern: where `p` first occurs in `s`.
pub open spec fn find_sub(s: Seq<char>, p: Seq<char>) -> Option<int> {
    if exists|i: int| is_first_at(s, p, i) {
        Some(choose|i: int| is_first_at(s, p, i))
    } else {
        None
    }
}

proof fn lemma_find_sub_unique(s: Seq<char>, p: Seq<char>, i: int)
    requires
        is_first_at(s, p, i),
    ensures
        find_sub(s, p) == Some(i),
{
    let k = choose|k: int| is_first_at(s, p, k);
    assert(is_first_at(s, p, k));
    if k < i {
        assert(!occurs_at(s, p, k));
    } else if k > i {
        assert(!occurs_at(s, p, i));
    }
}

/// Where `p` first occurs in `v`, if it does.
pub fn find_sub_chars(v: &Vec<char>, p: &Vec<char>) -> (r: Option<usize>)
    ensures
        match r {
            Some(i) => find_sub(v@, p@) == Some(i as int),
            None => find_sub(v@, p@) is None,
        },
{
    if p.len() > v.len() {
        assert forall|i: int| !is_first_at(v@, p@, i) by {}
        return None;
    }
    let last = v.len() - p.len();
    let plen = p.len();
    let mut i: usize = 0;
    loop
        invariant
            plen == p@.len(),
            last + plen == v@.len(),
            v@.len() <= usize::MAX,
            p@.len() <= v@.len(),
            last == v@.len() - p@.len(),
            i <= last,
            forall|j: int| 0 <= j < i ==> !#[trigger] occurs_at(v@, p@, j),
        ensures
            i == last,
            forall|j: int| 0 <= j <= i ==> !#[trigger] occurs_at(v@, p@, j),
        decreases last - i,
    {
        let hi: usize = i + plen;
        let piece = slice_chars(v, i, hi);
        if chars_eq(&piece, p) {
            proof {
                lemma_find_sub_unique(v@, p@, i as int);
            }
            return Some(i);
        }
        if i == last {
            break;
        }
        i = i + 1;
    }
    assert forall|k: int| !is_first_at(v@, p@, k) by {
        if 0 <= k && k <= i {
        } else if k > i {
            assert(!occurs_at(v@, p@, k));
        }
    }
    None
}

/// Where `c` last occurs in `s` (`str::rfind` / `rsplit_once`).
pub open spec fn last_index(s: Seq<char>, c: char) -> Option<int>
    decreases s.len(),
{
    if s.len() == 0 {
        None
    } else if s.last() == c {
        Some(s.len() - 1)
    } else {
        last_index(s.drop_last(), c)
    }
}

pub fn last_index_chars(v: &Vec<char>, c: char) -> (r: Option<usize>)
    ensures
        match r {
            Some(i) => last_index(v@, c) == Some(i as int) && i < v@.len(),
            None => last_index(v@, c) is None,
        },
{
    let mut j = v.len();
    assert(v@.subrange(0, j as int) =~= v@);
    while j > 0
        invariant
            j <= v.len(),
            last_index(v@, c) == last_index(v@.subrange(0, j as int), c),
        decreases j,
    {
        if v[j - 1] == c {
            return Some(j - 1);
        }
        assert(v@.subrange(0, j as int).drop_last() =~= v@.subrange(0, j - 1));
        j = j - 1;
    }
    None
}

/// `str::trim_end_matches(c)`: drops every trailing `c`.
pub open spec fn strip_trailing(s: Seq<char>, c: char) -> Seq<char>
    decreases s.len(),
{
    if s.len() > 0 && s.last() == c {
        strip_trailing(s.drop_last(), c)
    } else {
        s
    }
}

pub fn strip_trailing_chars(v: &Vec<char>, c: char) -> (r: Vec<char>)
    ensures
        r@ == strip_trailing(v@, c),
{
    let mut j = v.len();
    assert(v@.subrange(0, j as int) =~= v@);
    while j > 0 && v[j - 1] == c
        invariant
            j <= v.len(),
            strip_trailing(v@, c) == strip_trailing(v@.subrange(0, j as int), c),
        decreases j,
    {
        assert(v@.subrange(0, j as int).drop_last() =~= v@.subrange(0, j - 1));
        j = j - 1;
    }
    slice_chars(v, 0, j)
}

// ---------------------------------------------------------------------------
// Character classes
// ---------------------------------------------------------------------------

/// `char::is_ascii_digit`.
pub open spec fn is_digit(c: char) -> bool {
    '0' <= c && c <= '9'
}

/// `char::is_ascii_alphanumeric`.
pub open spec fn is_alnum(c: char) -> bool {
    ('0' <= c && c <= '9') || ('a' <= c && c <= 'z') || ('A' <= c && c <= 'Z')
}

/// `char::is_ascii_hexdigit`.
pub open spec fn is_hex_digit(c: char) -> bool {
    ('0' <= c && c <= '9') || ('a' <= c && c <= 'f') || ('A' <= c && c <= 'F')
}

/// The characters that `str::trim` removes: the Unicode `White_Space` set.
pub open spec fn is_ws(c: char) -> bool {
    ||| ('\u{9}' <= c && c <= '\u{d}')
    ||| c == ' '
    ||| c == '\u{85}'
    ||| c == '\u{a0}'
    ||| c == '\u{1680}'
    ||| ('\u{2000}' <= c && c <= '\u{200a}')
    ||| c == '\u{2028}'
    ||| c == '\u{2029}'
    ||| c == '\u{202f}'
    ||| c == '\u{205f}'
    ||| c == '\u{3000}'
}

pub fn digit_check(c: char) -> (r: bool)
    ensures
        r == is_digit(c),
{
    '0' <= c && c <= '9'
}

pub fn alnum_check(c: char) -> (r: bool)
    ensures
        r == is_alnum(c),
{
    ('0' <= c && c <= '9') || ('a' <= c && c <= 'z') || ('A' <= c && c <= 'Z')
}

pub fn ws_check(c: char) -> (r: bool)
    ensures
        r == is_ws(c),
{
    ('\u{9}' <= c && c <= '\u{d}') || c == ' ' || c == '\u{85}' || c == '\u{a0}' || c
        == '\u{1680}' || ('\u{2000}' <= c && c <= '\u{200a}') || c == '\u{2028}' || c
        == '\u{2029}' || c == '\u{202f}' || c == '\u{205f}' || c == '\u{3000}'
}

/// `char::to_ascii_lowercase`.
pub open spec fn lower(c: char) -> char {
    if 'A' <= c && c <= 'Z' {
        ((c as u32) + 32) as char
    } else {
        c
    }
}

/// `char::to_ascii_uppercase`.
pub open spec fn upper(c: char) -> char {
    if 'a' <= c && c <= 'z' {
        ((c as u32) - 32) as char
    } else {
        c
    }
}

pub fn lower_char(c: char) -> (r: char)
    ensures
        r == lower(c),
{
    if 'A' <= c && c <= 'Z' {
        let u = (c as u8) + 32;
        u as char
    } else {
        c
    }
}

pub fn upper_char(c: char) -> (r: char)
    ensures
        r == upper(c),
{
    if 'a' <= c && c <= 'z' {
        let u = (c as u8) - 32;
        u as char
    } else {
        c
    }
}

/// `str::to_ascii_lowercase` on a character sequence.
pub open spec fn lower_seq(s: Seq<char>) -> Seq<char> {
    s.map_values(|c: char| lower(c))
}

/// `str::to_ascii_uppercase` on a character sequence.
pub open spec fn upper_seq(s: Seq<char>) -> Seq<char> {
    s.map_values(|c: char| upper(c))
}

pub fn lower_chars(v: &Vec<char>) -> (r: Vec<char>)
    ensures
        r@ == lower_seq(v@),
{
    let mut r: Vec<char> = Vec::new();
    let mut i: usize = 0;
    while i < v.len()
        invariant
            i <= v.len(),
            r@ == lower_seq(v@.subrange(0, i as int)),
        decreases v.len() - i,
    {
        r.push(lower_char(v[i]));
        i = i + 1;
        assert(v@.subrange(0, i as int) =~= v@.subrange(0, i - 1).push(v@[i - 1]));
    }
    assert(v@.subrange(0, v.len() as int) =~= v@);
    r
}

pub fn upper_chars(v: &Vec<char>) -> (r: Vec<char>)
    ensures
        r@ == upper_seq(v@),
{
    let mut r: Vec<char> = Vec::new();
    let mut i: usize = 0;
    while i < v.len()
        invariant
            i <= v.len(),
            r@ == upper_seq(v@.subrange(0, i as int)),
        decreases v.len() - i,
    {
        r.push(upper_char(v[i]));
        i = i + 1;
        assert(v@.subrange(0, i as int) =~= v@.subrange(0, i - 1).push(v@[i - 1]));
    }
    assert(v@.subrange(0, v.len() as int) =~= v@);
    r
}

/// `str::eq_ignore_ascii_case`.
pub open spec fn eq_ignore_case(a: Seq<char>, b: Seq<char>) -> bool {
    lower_seq(a) == lower_seq(b)
}

pub fn eq_ignore_case_chars(a: &Vec<char>, b: &Vec<char>) -> (r: bool)
    ensures
        r == eq_ignore_case(a@, b@),
{
    let la = lower_chars(a);
    let lb = lower_chars(b);
    chars_eq(&la, &lb)
}

// ---------------------------------------------------------------------------
// UTF-8 widths
// ---------------------------------------------------------------------------

/// UTF-8 width of a character.
pub open spec fn utf8_len(c: char) -> int {
    if (c as u32) < 0x80 {
        1
    } else if (c as u32) < 0x800 {
        2
    } else if (c as u32) < 0x10000 {
        3
    } else {
        4
    }
}

/// UTF-8 width of a character sequence.
pub open spec fn byte_len(s: Seq<char>) -> int
    decreases s.len(),
{
    if s.len() == 0 {
        0
    } else {
        utf8_len(s[0]) + byte_len(s.drop_first())
    }
}

/// `String::truncate(n)`: the characters within the first `n` bytes, or
/// `None` when byte `n` falls inside a character (where `truncate` panics).
pub open spec fn truncate_bytes(s: Seq<char>, n: int) -> Option<Seq<char>>
    decreases s.len(),
{
    if s.len() == 0 || n <= 0 {
        Some(seq![])
    } else if utf8_len(s[0]) <= n {
        match truncate_bytes(s.drop_first(), n - utf8_len(s[0])) {
            Some(r) => Some(seq![s[0]] + r),
            None => None,
        }
    } else {
        None
    }
}

/// Prepends `k` to an optional character sequence.
pub open spec fn prefix_join(k: Seq<char>, o: Option<Seq<char>>) -> Option<Seq<char>> {
    match o {
        Some(r) => Some(k + r),
        None => None,
    }
}

/// Appending a character adds its width.
pub proof fn lemma_byte_len_push(s: Seq<char>, c: char)
    ensures
        byte_len(s.push(c)) == byte_len(s) + utf8_len(c),
    decreases s.len(),
{
    if s.len() > 0 {
        assert(s.push(c).drop_first() =~= s.drop_first().push(c));
        assert(s.push(c)[0] == s[0]);
        lemma_byte_len_push(s.drop_first(), c);
    } else {
        assert(s.push(c).drop_first() =~= Seq::<char>::empty());
        assert(byte_len(Seq::<char>::empty()) == 0);
    }
}

/// The UTF-8 width of `c`.
pub fn utf8_width(c: char) -> (w: usize)
    ensures
        w == utf8_len(c),
{
    if (c as u32) < 0x80 {
        1
    } else if (c as u32) < 0x800 {
        2
    } else if (c as u32) < 0x10000 {
        3
    } else {
        4
    }
}

/// Whether cutting `v` after its first `n` bytes lands between characters
/// (or past the end), so that byte slicing there does not panic.
pub fn cut_at_char(v: &Vec<char>, n: usize) -> (r: bool)
    ensures
        r == (truncate_bytes(v@, n as int) is Some),
{
    let mut i: usize = 0;
    let mut left: usize = n;
    assert(v@.subrange(0, v@.len() as int) =~= v@);
    while i < v.len() && left > 0
        invariant
            i <= v.len(),
            left <= n,
            (truncate_bytes(v@, n as int) is Some) == (truncate_bytes(
                v@.subrange(i as int, v@.len() as int),
                left as int,
            ) is Some),
        decreases v.len() - i,
    {
        let ghost tail = v@.subrange(i as int, v@.len() as int);
        assert(tail[0] == v@[i as int]);
        assert(tail.drop_first() =~= v@.subrange(i + 1, v@.len() as int));
        let w = utf8_width(v[i]);
        if w > left {
            return false;
        }
        left = left - w;
        i = i + 1;
    }
    true
}

// ---------------------------------------------------------------------------
// UTF-8
// ---------------------------------------------------------------------------

/// `String::from_utf8`: the text encoded by `bytes`, when they are valid UTF-8.
/// Claimed, as std documents: `None` exactly when the bytes are not valid
/// UTF-8, and otherwise the characters they encode.
#[verifier::external_body]
pub(crate) fn text_from_utf8(bytes: Vec<u8>) -> (r: Option<String>)
    ensures
        match r {
            Some(s) => valid_utf8(bytes@) && s@ == decode_utf8(bytes@),
            None => !valid_utf8(bytes@),
        },
{
    String::from_utf8(bytes).ok()
}

/// The text `String::from_utf8_lossy` makes of a byte string that is not
/// valid UTF-8 (each invalid sequence becomes U+FFFD).
pub uninterp spec fn utf8_lossy(bytes: Seq<u8>) -> Seq<char>;

/// What `String::from_utf8_lossy` makes of `bytes`: the encoded text when
/// they are valid UTF-8, else the text with replacement characters.
pub open spec fn lossy_text(bytes: Seq<u8>) -> Seq<char> {
    if valid_utf8(bytes) {
        decode_utf8(bytes)
    } else {
        utf8_lossy(bytes)
    }
}

/// `String::from_utf8_lossy`, owned. Claimed: for valid UTF-8 the result is
/// exactly the encoded text (std documents that valid input is returned as
/// is); for other input it depends on the bytes alone.
#[verifier::external_body]
pub(crate) fn text_from_utf8_lossy(bytes: &[u8]) -> (s: String)
    ensures
        s@ == (if valid_utf8(bytes@) {
            decode_utf8(bytes@)
        } else {
            utf8_lossy(bytes@)
        }),
{
    String::from_utf8_lossy(bytes).into_owned()
}

// ---------------------------------------------------------------------------
// Unicode case mapping
// ---------------------------------------------------------------------------

/// Every character of `s` is ASCII.
pub open spec fn all_ascii(s: Seq<char>) -> bool {
    forall|i: int| 0 <= i < s.len() ==> (#[trigger] s[i] as u32) < 128
}

/// The text `str::to_lowercase` makes of a string that is not all ASCII:
/// Unicode's full lowercase mapping, character by character (some
/// characters map to several).
pub uninterp spec fn unicode_lower(s: Seq<char>) -> Seq<char>;

/// What `str::to_lowercase` makes of `s`: on ASCII text, each `A`..`Z`
/// lowered and everything else kept; otherwise the Unicode mapping.
pub open spec fn lowercased(s: Seq<char>) -> Seq<char> {
    if all_ascii(s) {
        lower_seq(s)
    } else {
        unicode_lower(s)
    }
}

/// `str::to_lowercase`. Claimed: on ASCII text the result is the ASCII
/// lowercasing (Unicode maps `A`..`Z` to `a`..`z` and leaves the rest of
/// ASCII alone); on other text it depends on `s` alone.
#[verifier::external_body]
pub(crate) fn to_lowercase(s: &str) -> (r: String)
    ensures
        r@ == (if all_ascii(s@) {
            lower_seq(s@)
        } else {
            unicode_lower(s@)
        }),
{
    s.to_lowercase()
}

/// The text `str::to_uppercase` makes of a string that is not all ASCII:
/// Unicode's full uppercase mapping, character by character (some
/// characters map to several).
pub uninterp spec fn unicode_upper(s: Seq<char>) -> Seq<char>;

/// What `str::to_uppercase` makes of `s`: on ASCII text, each `a`..`z`
/// raised and everything else kept; otherwise the Unicode mapping.
pub open spec fn uppercased(s: Seq<char>) -> Seq<char> {
    if all_ascii(s) {
        upper_seq(s)
    } else {
        unicode_upper(s)
    }
}

/// `str::to_uppercase`. Claimed: on ASCII text the result is the ASCII
/// uppercasing (Unicode maps `a`..`z` to `A`..`Z` and leaves the rest of
/// ASCII alone); on other text it depends on `s` alone.
#[verifier::external_body]
pub(crate) fn to_uppercase(s: &str) -> (r: String)
    ensures
        r@ == (if all_ascii(s@) {
            upper_seq(s@)
        } else {
            unicode_upper(s@)
        }),
{
    s.to_uppercase()
}

// ---------------------------------------------------------------------------
// Splitting
// ---------------------------------------------------------------------------

/// `str::split(c)`: the pieces of `s` between occurrences of `c`, in order;
/// an empty string gives one empty piece.
pub open spec fn split_on(s: Seq<char>, c: char) -> Seq<Seq<char>>
    decreases s.len(),
{
    if s.len() == 0 {
        seq![seq![]]
    } else if s.last() == c {
        split_on(s.drop_last(), c).push(seq![])
    } else {
        let p = split_on(s.drop_last(), c);
        p.update(p.len() - 1, p.last().push(s.last()))
    }
}

pub proof fn lemma_split_nonempty(s: Seq<char>, c: char)
    ensures
        split_on(s, c).len() >= 1,
    decreases s.len(),
{
    if s.len() > 0 {
        lemma_split_nonempty(s.drop_last(), c);
    }
}

/// The character vectors of `v` split at every `c`.
pub fn split_chars(v: &Vec<char>, c: char) -> (r: Vec<Vec<char>>)
    ensures
        r@.len() == split_on(v@, c).len(),
        forall|i: int| 0 <= i < r@.len() ==> #[trigger] r@[i]@ == split_on(v@, c)[i],
{
    let mut done: Vec<Vec<char>> = Vec::new();
    let mut cur: Vec<char> = Vec::new();
    let mut i: usize = 0;
    while i < v.len()
        invariant
            i <= v.len(),
            done@.len() + 1 == split_on(v@.subrange(0, i as int), c).len(),
            forall|k: int| 0 <= k < done@.len() ==> #[trigger] done@[k]@ == split_on(v@.subrange(0, i as int), c)[k],
            cur@ == split_on(v@.subrange(0, i as int), c).last(),
        decreases v.len() - i,
    {
        let ghost pre = v@.subrange(0, i as int);
        proof {
            assert(v@.subrange(0, i + 1).drop_last() =~= pre);
            lemma_split_nonempty(pre, c);
        }
        if v[i] == c {
            done.push(cur);
            cur = Vec::new();
        } else {
            cur.push(v[i]);
        }
        i = i + 1;
    }
    assert(v@.subrange(0, v.len() as int) =~= v@);
    done.push(cur);
    done
}

/// `str::split_whitespace`: the maximal runs of non-whitespace characters.
pub open spec fn words(s: Seq<char>) -> Seq<Seq<char>>
    decreases s.len(),
{
    if s.len() == 0 {
        seq![]
    } else if is_ws(s.last()) {
        words(s.drop_last())
    } else if s.len() >= 2 && !is_ws(s[s.len() - 2]) {
        let w = words(s.drop_last());
        w.update(w.len() - 1, w.last().push(s.last()))
    } else {
        words(s.drop_last()).push(seq![s.last()])
    }
}

/// The whitespace-separated words of `v`.
pub fn words_chars(v: &Vec<char>) -> (r: Vec<Vec<char>>)
    ensures
        r@.len() == words(v@).len(),
        forall|k: int| 0 <= k < r@.len() ==> #[trigger] r@[k]@ == words(v@)[k],
{
    let mut done: Vec<Vec<char>> = Vec::new();
    let mut cur: Vec<char> = Vec::new();
    let mut in_word = false;
    let mut i: usize = 0;
    while i < v.len()
        invariant
            i <= v.len(),
            in_word == (i > 0 && !is_ws(v@[i - 1])),
            in_word ==> words(v@.subrange(0, i as int)).len() == done@.len() + 1 && cur@ == words(
                v@.subrange(0, i as int),
            ).last(),
            !in_word ==> words(v@.subrange(0, i as int)).len() == done@.len(),
            forall|k: int| 0 <= k < done@.len() ==> #[trigger] done@[k]@ == words(v@.subrange(0, i as int))[k],
        decreases v.len() - i,
    {
        let ghost pre = v@.subrange(0, i as int);
        let ghost next = v@.subrange(0, i + 1);
        proof {
            assert(next.drop_last() =~= pre);
            assert(next.last() == v@[i as int]);
            if i > 0 {
                assert(next[next.len() - 2] == v@[i - 1]);
            }
        }
        let c = v[i];
        if ws_check(c) {
            if in_word {
                done.push(cur);
                cur = Vec::new();
            }
            in_word = false;
        } else {
            if !in_word {
                cur = Vec::new();
            }
            cur.push(c);
            in_word = true;
        }
        i = i + 1;
    }
    assert(v@.subrange(0, v.len() as int) =~= v@);
    if in_word {
        done.push(cur);
    }
    done
}

/// The first of `str::lines`: up to the first newline, less a `\r` just
/// before it; `None` for empty text.
pub open spec fn first_line(s: Seq<char>) -> Option<Seq<char>> {
    if s.len() == 0 {
        None
    } else {
        match find(s, '\n') {
            Some(k) => {
                let l = s.subrange(0, k);
                if l.len() > 0 && l.last() == '\r' {
                    Some(l.drop_last())
                } else {
                    Some(l)
                }
            },
            None => Some(s),
        }
    }
}

pub fn first_line_chars(v: &Vec<char>) -> (r: Option<Vec<char>>)
    ensures
        match r {
            Some(l) => first_line(v@) == Some(l@),
            None => first_line(v@) is None,
        },
{
    if v.len() == 0 {
        return None;
    }
    match find_char(v, '\n') {
        Some(k) => {
            if k > 0 && v[k - 1] == '\r' {
                Some(slice_chars(v, 0, k - 1))
            } else {
                Some(slice_chars(v, 0, k))
            }
        },
        None => Some(slice_chars(v, 0, v.len())),
    }
}

/// `a` sorts strictly before `b`, character by character (the order of
/// code points, which is also the order of their UTF-8 bytes).
pub open spec fn lex_lt(a: Seq<char>, b: Seq<char>) -> bool
    decreases a.len(),
{
    if a.len() == 0 {
        b.len() > 0
    } else if b.len() == 0 {
        false
    } else if a[0] != b[0] {
        a[0] < b[0]
    } else {
        lex_lt(a.drop_first(), b.drop_first())
    }
}

pub proof fn lemma_lex_irreflexive(a: Seq<char>)
    ensures
        !lex_lt(a, a),
    decreases a.len(),
{
    if a.len() > 0 {
        lemma_lex_irreflexive(a.drop_first());
    }
}

pub proof fn lemma_lex_trans(a: Seq<char>, b: Seq<char>, c: Seq<char>)
    requires
        lex_lt(a, b),
        lex_lt(b, c),
    ensures
        lex_lt(a, c),
    decreases a.len(),
{
    if a.len() > 0 && b.len() > 0 && c.len() > 0 {
        if a[0] == b[0] && b[0] == c[0] {
            lemma_lex_trans(a.drop_first(), b.drop_first(), c.drop_first());
        }
    }
}

pub proof fn lemma_lex_total(a: Seq<char>, b: Seq<char>)
    requires
        a != b,
    ensures
        lex_lt(a, b) || lex_lt(b, a),
    decreases a.len(),
{
    if a.len() > 0 && b.len() > 0 && a[0] == b[0] {
        if a.drop_first() =~= b.drop_first() {
            assert forall|i: int| 0 <= i < a.len() implies a[i] == b[i] by {
                if i > 0 {
                    assert(a[i] == a.drop_first()[i - 1]);
                    assert(b[i] == b.drop_first()[i - 1]);
                }
            }
            assert(a =~= b);
        } else {
            lemma_lex_total(a.drop_first(), b.drop_first());
        }
    } else if a.len() == 0 && b.len() == 0 {
        assert(a =~= b);
    }
}

pub proof fn lemma_lex_asym(a: Seq<char>, b: Seq<char>)
    requires
        lex_lt(a, b),
    ensures
        !lex_lt(b, a),
{
    if lex_lt(b, a) {
        lemma_lex_trans(a, b, a);
        lemma_lex_irreflexive(a);
    }
}

/// Whether `a` sorts strictly before `b`.
pub fn str_less(a: &str, b: &str) -> (r: bool)
    ensures
        r == lex_lt(a@, b@),
{
    let x = chars_of(a);
    let y = chars_of(b);
    let mut i: usize = 0;
    assert(x@.subrange(0, x@.len() as int) =~= x@);
    assert(y@.subrange(0, y@.len() as int) =~= y@);
    while i < x.len() && i < y.len() && x[i] == y[i]
        invariant
            i <= x@.len(),
            i <= y@.len(),
            lex_lt(x@, y@) == lex_lt(x@.subrange(i as int, x@.len() as int), y@.subrange(i as int, y@.len() as int)),
        decreases x@.len() - i,
    {
        assert(x@.subrange(i as int, x@.len() as int).drop_first() =~= x@.subrange(i + 1, x@.len() as int));
        assert(y@.subrange(i as int, y@.len() as int).drop_first() =~= y@.subrange(i + 1, y@.len() as int));
        i = i + 1;
    }
    assert(x@.subrange(0, x@.len() as int) =~= x@);
    assert(y@.subrange(0, y@.len() as int) =~= y@);
    if i == x.len() {
        i < y.len()
    } else if i == y.len() {
        false
    } else {
        x[i] < y[i]
    }
}

// ---------------------------------------------------------------------------
// Trimming
// ---------------------------------------------------------------------------

/// `str::trim_start`.
pub open spec fn trim_start(s: Seq<char>) -> Seq<char>
    decreases s.len(),
{
    if s.len() > 0 && is_ws(s[0]) {
        trim_start(s.drop_first())
    } else {
        s
    }
}

/// `str::trim_end`.
pub open spec fn trim_end(s: Seq<char>) -> Seq<char>
    decreases s.len(),
{
    if s.len() > 0 && is_ws(s.last()) {
        trim_end(s.drop_last())
    } else {
        s
    }
}

/// `str::trim`.
pub open spec fn trim(s: Seq<char>) -> Seq<char> {
    trim_end(trim_start(s))
}

proof fn lemma_trim_start_clean(s: Seq<char>)
    ensures
        !(trim_start(s).len() > 0 && is_ws(trim_start(s)[0])),
    decreases s.len(),
{
    if s.len() > 0 && is_ws(s[0]) {
        lemma_trim_start_clean(s.drop_first());
    }
}

proof fn lemma_trim_end_prefix(s: Seq<char>)
    ensures
        trim_end(s).len() <= s.len(),
        trim_end(s) == s.subrange(0, trim_end(s).len() as int),
        !(trim_end(s).len() > 0 && is_ws(trim_end(s).last())),
    decreases s.len(),
{
    if s.len() > 0 && is_ws(s.last()) {
        lemma_trim_end_prefix(s.drop_last());
        assert(s.drop_last().subrange(0, trim_end(s).len() as int) =~= s.subrange(0, trim_end(s).len() as int));
    } else {
        assert(s.subrange(0, s.len() as int) =~= s);
    }
}

/// Trimming twice trims no more than once.
pub proof fn lemma_trim_idempotent(s: Seq<char>)
    ensures
        trim(trim(s)) == trim(s),
{
    let a = trim_start(s);
    lemma_trim_start_clean(s);
    lemma_trim_end_prefix(a);
    let b = trim_end(a);
    if b.len() > 0 {
        assert(b[0] == a[0]);
    }
    assert(trim_start(b) == b);
}

/// Index of the first character of `s` that `trim_start` keeps.
pub fn trim_start_index(v: &Vec<char>) -> (i: usize)
    ensures
        i <= v.len(),
        trim_start(v@) == v@.subrange(i as int, v@.len() as int),
{
    let mut i: usize = 0;
    assert(v@.subrange(0, v@.len() as int) =~= v@);
    while i < v.len() && ws_check(v[i])
        invariant
            i <= v.len(),
            trim_start(v@) == trim_start(v@.subrange(i as int, v@.len() as int)),
        decreases v.len() - i,
    {
        assert(v@.subrange(i as int, v@.len() as int).drop_first() =~= v@.subrange(
            i + 1,
            v@.len() as int,
        ));
        i = i + 1;
    }
    i
}

/// One past the last character of `v[..hi]` that `trim_end` keeps.
pub fn trim_end_index(v: &Vec<char>, lo: usize, hi: usize) -> (j: usize)
    requires
        lo <= hi <= v.len(),
    ensures
        lo <= j <= hi,
        trim_end(v@.subrange(lo as int, hi as int)) == v@.subrange(lo as int, j as int),
{
    let mut j = hi;
    while j > lo && ws_check(v[j - 1])
        invariant
            lo <= j <= hi,
            hi <= v.len(),
            trim_end(v@.subrange(lo as int, hi as int)) == trim_end(
                v@.subrange(lo as int, j as int),
            ),
        decreases j,
    {
        assert(v@.subrange(lo as int, j as int).drop_last() =~= v@.subrange(
            lo as int,
            j - 1,
        ));
        j = j - 1;
    }
    j
}

pub fn trim_chars(v: &Vec<char>) -> (r: Vec<char>)
    ensures
        r@ == trim(v@),
{
    let i = trim_start_index(v);
    let j = trim_end_index(v, i, v.len());
    slice_chars(v, i, j)
}

/// `str::trim` on a string slice, as characters.
pub fn trim_str(s: &str) -> (r: Vec<char>)
    ensures
        r@ == trim(s@),
{
    let v = chars_of(s);
    trim_chars(&v)
}

// ---------------------------------------------------------------------------
// Decimal formatting
// ---------------------------------------------------------------------------

/// The ASCII digit for `d` (0..=9).
pub open spec fn digit_char(d: int) -> char {
    (48 + d) as char
}

/// The decimal digits of `n`, most significant first, with no leading zero.
pub open spec fn nat_digits(n: nat) -> Seq<char>
    decreases n,
{
    if n < 10 {
        seq![digit_char(n as int)]
    } else {
        nat_digits(n / 10).push(digit_char((n % 10) as int))
    }
}

/// `n.to_string()` for an integer.
pub open spec fn int_str(n: int) -> Seq<char> {
    if n < 0 {
        seq!['-'] + nat_digits((-n) as nat)
    } else {
        nat_digits(n as nat)
    }
}

/// `format!("{:0w$}", n)`: the sign, then zeros up to width `w`, then the digits.
pub open spec fn zero_pad(n: int, w: nat) -> Seq<char> {
    let sign: Seq<char> = if n < 0 { seq!['-'] } else { seq![] };
    let digits = nat_digits(if n < 0 { (-n) as nat } else { n as nat });
    let fill = w - sign.len() - digits.len();
    sign + Seq::new(if fill > 0 { fill as nat } else { 0 }, |i: int| '0') + digits
}

pub fn digit_of(d: u64) -> (c: char)
    requires
        d < 10,
    ensures
        c == digit_char(d as int),
{
    let b: u8 = 48 + (d as u8);
    b as char
}

/// The decimal digits of `n`.
pub fn u64_digits(n: u64) -> (v: Vec<char>)
    ensures
        v@ == nat_digits(n as nat),
    decreases n,
{
    if n < 10 {
        let mut v: Vec<char> = Vec::new();
        v.push(digit_of(n));
        v
    } else {
        let mut v = u64_digits(n / 10);
        v.push(digit_of(n % 10));
        v
    }
}

/// The magnitude of `n` as a `u64` (`i64::unsigned_abs`).
pub fn abs_u64(n: i64) -> (r: u64)
    ensures
        r as int == if n < 0 { -n } else { n as int },
{
    if n < 0 {
        ((-(n + 1)) as u64) + 1
    } else {
        n as u64
    }
}

/// `n.to_string()` as characters.
pub fn i64_chars(n: i64) -> (v: Vec<char>)
    ensures
        v@ == int_str(n as int),
{
    let mag = abs_u64(n);
    let digits = u64_digits(mag);
    if n < 0 {
        let mut v: Vec<char> = Vec::new();
        v.push('-');
        append_chars(&mut v, &digits);
        v
    } else {
        digits
    }
}

/// `format!("{:0w$}", n)` as characters.
pub fn zero_pad_chars(n: i64, w: usize) -> (v: Vec<char>)
    ensures
        v@ == zero_pad(n as int, w as nat),
{
    let mag = abs_u64(n);
    let digits = u64_digits(mag);
    let mut v: Vec<char> = Vec::new();
    let sign_len: usize = if n < 0 {
        v.push('-');
        1
    } else {
        0
    };
    let ghost sign = v@;
    let fill: usize = if w > sign_len && w - sign_len > digits.len() {
        w - sign_len - digits.len()
    } else {
        0
    };
    let mut k: usize = 0;
    while k < fill
        invariant
            k <= fill,
            v@ == sign + Seq::new(k as nat, |i: int| '0'),
        decreases fill - k,
    {
        v.push('0');
        k = k + 1;
        assert(v@ =~= sign + Seq::new(k as nat, |i: int| '0'));
    }
    append_chars(&mut v, &digits);
    proof {
        let ghost z = zero_pad(n as int, w as nat);
        assert(v@ =~= z);
    }
    v
}

// ---------------------------------------------------------------------------
// Decimal parsing
// ---------------------------------------------------------------------------

/// Every character of `s` is an ASCII digit.
pub open spec fn all_digits(s: Seq<char>) -> bool {
    forall|i: int| 0 <= i < s.len() ==> is_digit(#[trigger] s[i])
}

/// The value of a run of ASCII digits.
pub open spec fn digits_value(s: Seq<char>) -> int
    decreases s.len(),
{
    if s.len() == 0 {
        0
    } else {
        digits_value(s.drop_last()) * 10 + (s.last() as int - 48)
    }
}

/// What `str::parse` yields for an integer type, before the range check:
/// an optional `+` (or `-` when `signed`) and then one or more ASCII digits.
pub open spec fn parse_int(s: Seq<char>, signed: bool) -> Option<int> {
    if s.len() == 0 {
        None
    } else if (s[0] == '+' || s[0] == '-') && s.len() == 1 {
        None
    } else if s[0] == '+' {
        if all_digits(s.drop_first()) {
            Some(digits_value(s.drop_first()))
        } else {
            None
        }
    } else if s[0] == '-' && signed {
        if all_digits(s.drop_first()) {
            Some(-digits_value(s.drop_first()))
        } else {
            None
        }
    } else if all_digits(s) {
        Some(digits_value(s))
    } else {
        None
    }
}

/// `s.parse::<i64>()`, as an option.
pub open spec fn parse_i64_spec(s: Seq<char>) -> Option<i64> {
    match parse_int(s, true) {
        Some(v) => if i64::MIN <= v <= i64::MAX {
            Some(v as i64)
        } else {
            None
        },
        None => None,
    }
}

/// `s.parse::<u64>()`-style parsing bounded by `max`, as an option.
pub open spec fn parse_unsigned_spec(s: Seq<char>, max: int) -> Option<int> {
    match parse_int(s, false) {
        Some(v) => if v <= max {
            Some(v)
        } else {
            None
        },
        None => None,
    }
}

/// The decimal digits of `n` are digits, read back as `n`, and there are
/// at most four of them below 10000 (two below 100).
pub proof fn lemma_nat_digits(n: nat)
    ensures
        all_digits(nat_digits(n)),
        digits_value(nat_digits(n)) == n,
        nat_digits(n).len() >= 1,
        n < 10 ==> nat_digits(n).len() == 1,
        n < 100 ==> nat_digits(n).len() <= 2,
        n < 1000 ==> nat_digits(n).len() <= 3,
        n < 10000 ==> nat_digits(n).len() <= 4,
    decreases n,
{
    let k = (n % 10) as int;
    assert(digit_char(k) as int == 48 + k);
    if n >= 10 {
        lemma_nat_digits(n / 10);
        let p = nat_digits(n / 10);
        let s = nat_digits(n);
        assert(s.drop_last() =~= p);
        assert(s.last() == digit_char(k));
        assert(n == (n / 10) * 10 + k);
        assert(digits_value(s) == digits_value(p) * 10 + (s.last() as int - 48));
        assert forall|i: int| 0 <= i < s.len() implies is_digit(#[trigger] s[i]) by {
            if i < p.len() {
                assert(s[i] == p[i]);
            }
        }
    } else {
        let s = nat_digits(n);
        assert(s.drop_last() =~= Seq::<char>::empty());
        assert(digits_value(s) == digits_value(s.drop_last()) * 10 + (s.last() as int - 48));
    }
}

/// Reading back what an `i64` is written as gives the same number.
pub proof fn lemma_int_str_round_trip(n: i64)
    ensures
        parse_i64_spec(int_str(n as int)) == Some(n),
{
    if n < 0 {
        let m = (-(n as int)) as nat;
        lemma_nat_digits(m);
        let s = int_str(n as int);
        assert(s.drop_first() =~= nat_digits(m));
        assert(s[0] == '-');
    } else {
        lemma_nat_digits(n as nat);
        let s = int_str(n as int);
        assert(is_digit(s[0]));
    }
}

/// Leading zeros do not change what digits are worth.
pub proof fn lemma_leading_zeros(f: nat, s: Seq<char>)
    requires
        all_digits(s),
    ensures
        all_digits(Seq::new(f, |i: int| '0') + s),
        digits_value(Seq::new(f, |i: int| '0') + s) == digits_value(s),
    decreases s.len() + f,
{
    let z = Seq::new(f, |i: int| '0');
    let t = z + s;
    assert forall|i: int| 0 <= i < t.len() implies is_digit(#[trigger] t[i]) by {
        if i >= f {
            assert(t[i] == s[i - f]);
        }
    }
    if s.len() > 0 {
        assert(all_digits(s.drop_last()));
        lemma_leading_zeros(f, s.drop_last());
        assert(t.drop_last() =~= z + s.drop_last());
    } else if f > 0 {
        lemma_leading_zeros((f - 1) as nat, s);
        assert(t.drop_last() =~= Seq::new((f - 1) as nat, |i: int| '0') + s);
    } else {
        assert(t =~= s);
    }
}

/// `n` zero-padded to `w` digits, when it fits: exactly `w` digits worth `n`.
pub proof fn lemma_zero_pad_digits(n: nat, w: nat)
    requires
        nat_digits(n).len() <= w,
    ensures
        zero_pad(n as int, w).len() == w,
        all_digits(zero_pad(n as int, w)),
        digits_value(zero_pad(n as int, w)) == n,
{
    lemma_nat_digits(n);
    let f = (w - nat_digits(n).len()) as nat;
    lemma_leading_zeros(f, nat_digits(n));
    assert(zero_pad(n as int, w) =~= Seq::new(f, |i: int| '0') + nat_digits(n));
}

proof fn lemma_digits_value_nonneg(s: Seq<char>)
    requires
        all_digits(s),
    ensures
        digits_value(s) >= 0,
    decreases s.len(),
{
    if s.len() > 0 {
        assert(all_digits(s.drop_last()));
        lemma_digits_value_nonneg(s.drop_last());
    }
}

/// A run of digits is worth at least as much as any prefix of it.
proof fn lemma_digits_value_prefix(s: Seq<char>, k: int)
    requires
        all_digits(s),
        0 <= k <= s.len(),
    ensures
        digits_value(s.subrange(0, k)) <= digits_value(s),
    decreases s.len() - k,
{
    if k < s.len() {
        let t = s.subrange(0, k + 1);
        assert(all_digits(t));
        assert(t.drop_last() =~= s.subrange(0, k));
        lemma_digits_value_nonneg(s.subrange(0, k));
        lemma_digits_value_prefix(s, k + 1);
    } else {
        assert(s.subrange(0, k) =~= s);
    }
}

/// Parses the digits `v[lo..]` as a non-negative value, failing when any
/// character is not a digit or the value exceeds `max`.
fn parse_digits(v: &Vec<char>, lo: usize, max: u64) -> (r: Option<u64>)
    requires
        lo <= v.len(),
    ensures
        r == (if all_digits(v@.subrange(lo as int, v@.len() as int)) && digits_value(
            v@.subrange(lo as int, v@.len() as int),
        ) <= max {
            Some(digits_value(v@.subrange(lo as int, v@.len() as int)) as u64)
        } else {
            None
        }),
        r matches Some(m) ==> m <= max && all_digits(v@.subrange(lo as int, v@.len() as int))
            && m as int == digits_value(v@.subrange(lo as int, v@.len() as int)),
{
    let ghost s = v@.subrange(lo as int, v@.len() as int);
    let mut acc: u64 = 0;
    let mut i = lo;
    while i < v.len()
        invariant
            lo <= i <= v.len(),
            s == v@.subrange(lo as int, v@.len() as int),
            all_digits(v@.subrange(lo as int, i as int)),
            acc as int == digits_value(v@.subrange(lo as int, i as int)),
            acc <= max,
        decreases v.len() - i,
    {
        let c = v[i];
        if !digit_check(c) {
            assert(s[i - lo] == c);
            return None;
        }
        let d = (c as u64) - 48;
        let ghost pre = v@.subrange(lo as int, i as int);
        let ghost nxt = v@.subrange(lo as int, i + 1);
        assert(nxt.drop_last() =~= pre);
        assert(all_digits(nxt));
        if d > max || acc > (max - d) / 10 {
            proof {
                assert(digits_value(nxt) == acc * 10 + d);
                assert(digits_value(nxt) > max) by (nonlinear_arith)
                    requires
                        d > max || acc > (max - d) / 10,
                        digits_value(nxt) == acc * 10 + d,
                        acc >= 0,
                        0 <= d < 10,
                ;
                let ghost all = v@.subrange(lo as int, v@.len() as int);
                if all_digits(all) {
                    assert(all.subrange(0, i + 1 - lo) =~= nxt);
                    lemma_digits_value_prefix(all, i + 1 - lo);
                }
            }
            return None;
        }
        proof {
            assert((max - d) / 10 * 10 <= max - d) by (nonlinear_arith)
                requires d <= max;
            assert(acc * 10 <= (max - d) / 10 * 10) by (nonlinear_arith)
                requires acc <= (max - d) / 10;
        }
        acc = acc * 10 + d;
        i = i + 1;
    }
    proof {
        lemma_digits_value_nonneg(v@.subrange(lo as int, i as int));
        assert(v@.subrange(lo as int, i as int) =~= s);
    }
    Some(acc)
}

/// `s.parse::<i64>().ok()` on characters.
pub fn parse_i64(v: &Vec<char>) -> (r: Option<i64>)
    ensures
        r == parse_i64_spec(v@),
{
    if v.len() == 0 {
        return None;
    }
    if (v[0] == '+' || v[0] == '-') && v.len() == 1 {
        return None;
    }
    assert(v@.drop_first() =~= v@.subrange(1, v@.len() as int));
    assert(v@ =~= v@.subrange(0, v@.len() as int));
    if v[0] == '-' {
        // Magnitudes up to 2^63 are representable as negatives.
        match parse_digits(v, 1, 9223372036854775808u64) {
            Some(m) => {
                assert(parse_int(v@, true) == Some(-(m as int)));
                if m == 9223372036854775808u64 {
                    Some(i64::MIN)
                } else {
                    Some(-(m as i64))
                }
            },
            None => {
                proof {
                    let ghost t = v@.drop_first();
                    if all_digits(t) {
                        lemma_digits_value_nonneg(t);
                    }
                }
                None
            },
        }
    } else {
        let lo: usize = if v[0] == '+' {
            1
        } else {
            0
        };
        match parse_digits(v, lo, 9223372036854775807u64) {
            Some(m) => {
                if lo == 1 {
                    assert(parse_int(v@, true) == Some(m as int));
                } else {
                    assert(parse_int(v@, true) == Some(m as int));
                }
                Some(m as i64)
            },
            None => {
                proof {
                    let ghost t = v@.subrange(lo as int, v@.len() as int);
                    if all_digits(t) {
                        lemma_digits_value_nonneg(t);
                    }
                }
                None
            },
        }
    }
}

/// Unsigned integer parsing bounded by `max` (`str::parse::<u16>()` and the
/// like): an optional `+`, then digits.
pub fn parse_unsigned(v: &Vec<char>, max: u64) -> (r: Option<u64>)
    ensures
        r == (match parse_unsigned_spec(v@, max as int) {
            Some(x) => Some(x as u64),
            None => None,
        }),
        r matches Some(n) ==> n <= max && parse_unsigned_spec(v@, max as int) == Some(n as int),
{
    if v.len() == 0 {
        return None;
    }
    if (v[0] == '+' || v[0] == '-') && v.len() == 1 {
        return None;
    }
    assert(v@.drop_first() =~= v@.subrange(1, v@.len() as int));
    assert(v@ =~= v@.subrange(0, v@.len() as int));
    let lo: usize = if v[0] == '+' {
        1
    } else {
        0
    };
    parse_digits(v, lo, max)
}

} // verus!
