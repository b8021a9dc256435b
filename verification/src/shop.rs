//! Shop helpers shared by the storefront, admin and checkout layers: URL slugs
//! and ISK price labels.

use vstd::prelude::*;
use crate::text::{
    append_chars, append_str, chars_of, nat_digits, string_of, strip_trailing,
    strip_trailing_chars, to_lowercase, trim, trim_str, u64_digits, lowercased, zero_pad,
    zero_pad_chars,
};

verus! {

/// What a lowercased character contributes to a slug: ASCII letters and
/// digits stand, Icelandic and accented letters are transliterated, anything
/// else separates words.
pub open spec fn slug_piece(c: char) -> Option<Seq<char>> {
    if ('a' <= c && c <= 'z') || ('0' <= c && c <= '9') {
        Some(seq![c])
    } else if c == 'á' || c == 'à' || c == 'â' || c == 'ä' || c == 'å' {
        Some(seq!['a'])
    } else if c == 'é' || c == 'è' || c == 'ê' || c == 'ë' {
        Some(seq!['e'])
    } else if c == 'í' || c == 'ì' || c == 'î' || c == 'ï' {
        Some(seq!['i'])
    } else if c == 'ó' || c == 'ò' || c == 'ô' || c == 'ö' {
        Some(seq!['o'])
    } else if c == 'ú' || c == 'ù' || c == 'û' || c == 'ü' {
        Some(seq!['u'])
    } else if c == 'ý' || c == 'ÿ' {
        Some(seq!['y'])
    } else if c == 'æ' {
        Some(seq!['a', 'e'])
    } else if c == 'þ' {
        Some(seq!['t', 'h'])
    } else if c == 'ð' {
        Some(seq!['d'])
    } else {
        None
    }
}

/// The slug built so far from `s`, and whether it ends in a separator: runs
/// of separators become one `-`, and none leads.
pub open spec fn slug_state(s: Seq<char>) -> (Seq<char>, bool)
    decreases s.len(),
{
    if s.len() == 0 {
        (seq![], false)
    } else {
        let (out, dash) = slug_state(s.drop_last());
        match slug_piece(s.last()) {
            Some(p) => (out + p, false),
            None => if !dash && out.len() > 0 {
                (out.push('-'), true)
            } else {
                (out, dash)
            },
        }
    }
}

/// The URL slug of a text: trimmed, lowercased, transliterated, separators
/// collapsed, trailing `-` dropped.
pub open spec fn slug(text: Seq<char>) -> Seq<char> {
    strip_trailing(slug_state(lowercased(trim(text))).0, '-')
}

/// Slug text: lowercase ASCII letters, digits and single `-`s between them,
/// never at the start.
pub open spec fn slug_text(s: Seq<char>) -> bool {
    &&& forall|i: int|
        0 <= i < s.len() ==> ('a' <= #[trigger] s[i] <= 'z' || '0' <= s[i] <= '9' || s[i] == '-')
    &&& (s.len() > 0 ==> s[0] != '-')
    &&& forall|i: int| 0 <= i < s.len() - 1 ==> !(#[trigger] s[i] == '-' && s[i + 1] == '-')
}

proof fn lemma_piece_letters(c: char)
    ensures
        slug_piece(c) matches Some(p) ==> p.len() > 0 && forall|i: int|
            0 <= i < p.len() ==> ('a' <= #[trigger] p[i] <= 'z' || '0' <= p[i] <= '9'),
{
}

/// What the slug builder holds is slug text, and it says truly whether
/// that text ends in `-`.
proof fn lemma_slug_state_text(s: Seq<char>)
    ensures
        slug_text(slug_state(s).0),
        slug_state(s).1 <==> (slug_state(s).0.len() > 0 && slug_state(s).0.last() == '-'),
    decreases s.len(),
{
    if s.len() > 0 {
        lemma_slug_state_text(s.drop_last());
        let (out, dash) = slug_state(s.drop_last());
        lemma_piece_letters(s.last());
        match slug_piece(s.last()) {
            Some(p) => {
                let n = out + p;
                assert forall|i: int| 0 <= i < n.len() - 1 implies !(#[trigger] n[i] == '-' && n[i + 1] == '-') by {
                    if i + 1 < out.len() {
                        assert(n[i] == out[i] && n[i + 1] == out[i + 1]);
                    } else {
                        assert(n[i + 1] == p[i + 1 - out.len()]);
                    }
                }
                assert forall|i: int| 0 <= i < n.len() implies ('a' <= #[trigger] n[i] <= 'z' || '0' <= n[i] <= '9'
                    || n[i] == '-') by {
                    if i < out.len() {
                        assert(n[i] == out[i]);
                    } else {
                        assert(n[i] == p[i - out.len()]);
                    }
                }
                assert(n.len() > 0 ==> n[0] != '-') by {
                    if out.len() == 0 {
                        assert(n[0] == p[0]);
                    } else {
                        assert(n[0] == out[0]);
                    }
                }
                assert(n.last() == p.last());
            },
            None => {
                if !dash && out.len() > 0 {
                    let n = out.push('-');
                    assert forall|i: int| 0 <= i < n.len() - 1 implies !(#[trigger] n[i] == '-' && n[i + 1] == '-') by {
                        if i + 1 < out.len() {
                            assert(n[i] == out[i] && n[i + 1] == out[i + 1]);
                        } else {
                            assert(n[i] == out.last());
                        }
                    }
                    assert forall|i: int| 0 <= i < n.len() implies ('a' <= #[trigger] n[i] <= 'z' || '0' <= n[i]
                        <= '9' || n[i] == '-') by {
                        if i < out.len() {
                            assert(n[i] == out[i]);
                        }
                    }
                    assert(n[0] == out[0]);
                }
            },
        }
    }
}

/// Slug text goes through the builder unchanged.
proof fn lemma_slug_state_of_text(s: Seq<char>)
    requires
        slug_text(s),
    ensures
        slug_state(s) == (s, s.len() > 0 && s.last() == '-'),
    decreases s.len(),
{
    if s.len() > 0 {
        let init = s.drop_last();
        assert forall|i: int| 0 <= i < init.len() - 1 implies !(#[trigger] init[i] == '-' && init[i + 1] == '-') by {
            assert(init[i] == s[i] && init[i + 1] == s[i + 1]);
        }
        assert forall|i: int| 0 <= i < init.len() implies ('a' <= #[trigger] init[i] <= 'z' || '0' <= init[i]
            <= '9' || init[i] == '-') by {
            assert(init[i] == s[i]);
        }
        lemma_slug_state_of_text(init);
        if s.last() == '-' {
            assert(s.len() >= 2);
            assert(!(s[s.len() - 2] == '-' && s[s.len() - 1] == '-'));
            assert(init.push('-') =~= s);
        } else {
            assert(init + seq![s.last()] =~= s);
        }
    }
}

/// Slugging is idempotent: the slug of a slug is itself.
pub proof fn lemma_slug_idempotent(text: Seq<char>)
    ensures
        slug(slug(text)) == slug(text),
{
    let out = slug_state(lowercased(trim(text))).0;
    lemma_slug_state_text(lowercased(trim(text)));
    let x = slug(text);
    lemma_strip_dash(out);
    // x is slug text without a trailing `-`
    if x.len() > 0 {
        assert(!crate::text::is_ws(x[0]));
        assert(!crate::text::is_ws(x.last()));
    }
    assert(crate::text::trim_start(x) == x);
    assert(crate::text::trim_end(x) == x);
    assert(crate::text::all_ascii(x));
    assert(crate::text::lower_seq(x) =~= x);
    lemma_slug_state_of_text(x);
}

/// Every slug is slug text: lowercase ASCII letters, digits and single `-`s,
/// neither leading nor trailing.
pub proof fn lemma_slug_shape(text: Seq<char>)
    ensures
        slug_text(slug(text)),
        slug(text).len() > 0 ==> slug(text).last() != '-',
{
    lemma_slug_state_text(lowercased(trim(text)));
    lemma_strip_dash(slug_state(lowercased(trim(text))).0);
}

/// Dropping the trailing `-` of slug text leaves slug text that does not
/// end in `-`.
proof fn lemma_strip_dash(s: Seq<char>)
    requires
        slug_text(s),
    ensures
        slug_text(strip_trailing(s, '-')),
        strip_trailing(s, '-').len() > 0 ==> strip_trailing(s, '-').last() != '-',
        strip_trailing(s, '-') == s || strip_trailing(s, '-') == s.drop_last(),
{
    if s.len() > 0 && s.last() == '-' {
        let init = s.drop_last();
        if init.len() > 0 {
            assert(!(s[s.len() - 2] == '-' && s[s.len() - 1] == '-'));
            assert(init.last() != '-');
        }
        assert(strip_trailing(init, '-') == init);
        assert forall|i: int| 0 <= i < init.len() - 1 implies !(#[trigger] init[i] == '-' && init[i + 1] == '-') by {
            assert(init[i] == s[i] && init[i + 1] == s[i + 1]);
        }
        assert forall|i: int| 0 <= i < init.len() implies ('a' <= #[trigger] init[i] <= 'z' || '0' <= init[i]
            <= '9' || init[i] == '-') by {
            assert(init[i] == s[i]);
        }
    }
}

fn push_piece(out: &mut Vec<char>, c: char) -> (found: bool)
    ensures
        match slug_piece(c) {
            Some(p) => found && final(out)@ == old(out)@ + p,
            None => !found && final(out)@ == old(out)@,
        },
{
    let ghost start = out@;
    if ('a' <= c && c <= 'z') || ('0' <= c && c <= '9') {
        out.push(c);
    } else if c == 'á' || c == 'à' || c == 'â' || c == 'ä' || c == 'å' {
        out.push('a');
    } else if c == 'é' || c == 'è' || c == 'ê' || c == 'ë' {
        out.push('e');
    } else if c == 'í' || c == 'ì' || c == 'î' || c == 'ï' {
        out.push('i');
    } else if c == 'ó' || c == 'ò' || c == 'ô' || c == 'ö' {
        out.push('o');
    } else if c == 'ú' || c == 'ù' || c == 'û' || c == 'ü' {
        out.push('u');
    } else if c == 'ý' || c == 'ÿ' {
        out.push('y');
    } else if c == 'æ' {
        out.push('a');
        out.push('e');
    } else if c == 'þ' {
        out.push('t');
        out.push('h');
    } else if c == 'ð' {
        out.push('d');
    } else {
        return false;
    }
    assert(out@ =~= start + slug_piece(c).unwrap());
    true
}

/// Build a URL-safe ASCII slug from `text`, transliterating Icelandic letters.
pub fn slugify(text: &str) -> (r: String)
    ensures
        r@ == slug(text@),
{
    let t = string_of(&trim_str(text));
    let lower = chars_of(to_lowercase(t.as_str()).as_str());
    let mut out: Vec<char> = Vec::new();
    let mut last_dash = false;
    let mut i: usize = 0;
    while i < lower.len()
        invariant
            i <= lower@.len(),
            slug_state(lower@.subrange(0, i as int)) == (out@, last_dash),
        decreases lower@.len() - i,
    {
        assert(lower@.subrange(0, i + 1).drop_last() =~= lower@.subrange(0, i as int));
        if push_piece(&mut out, lower[i]) {
            last_dash = false;
        } else if !last_dash && out.len() > 0 {
            out.push('-');
            last_dash = true;
        }
        i = i + 1;
    }
    assert(lower@.subrange(0, lower@.len() as int) =~= lower@);
    let r = strip_trailing_chars(&out, '-');
    string_of(&r)
}

/// The digits of `n` in groups of three separated by `.`.
pub open spec fn isk_digits(n: nat) -> Seq<char>
    decreases n,
{
    if n < 1000 {
        nat_digits(n)
    } else {
        isk_digits(n / 1000) + seq!['.'] + zero_pad((n % 1000) as int, 3)
    }
}

/// An ISK price label, e.g. `1.234 kr` or `-50 kr`.
pub open spec fn isk_label(amount: i64) -> Seq<char> {
    (if amount < 0 {
        seq!['-']
    } else {
        seq![]
    }) + isk_digits(if amount < 0 {
        (-amount) as nat
    } else {
        amount as nat
    }) + " kr"@
}

fn isk_digits_of(n: u64) -> (v: Vec<char>)
    ensures
        v@ == isk_digits(n as nat),
    decreases n,
{
    if n < 1000 {
        u64_digits(n)
    } else {
        let mut v = isk_digits_of(n / 1000);
        v.push('.');
        let g = zero_pad_chars((n % 1000) as i64, 3);
        append_chars(&mut v, &g);
        v
    }
}

/// Format an ISK amount with `.` thousands separators, e.g. `1.234 kr`.
pub fn format_isk(amount: i64) -> (r: String)
    ensures
        r@ == isk_label(amount),
{
    let mag = crate::text::abs_u64(amount);
    let mut v: Vec<char> = Vec::new();
    if amount < 0 {
        v.push('-');
    }
    let d = isk_digits_of(mag);
    append_chars(&mut v, &d);
    append_str(&mut v, " kr");
    string_of(&v)
}

} // verus!
