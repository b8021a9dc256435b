//! Markdown content: frontmatter parsing. Documents may open with YAML-ish
//! `key: value` lines between `---` fences (`title`, `date`, `summary`, …);
//! the rest is the markdown body.

use vstd::prelude::*;
use crate::text::{
    append_chars, chars_of, find, find_char, slice_chars, str_eq, string_of, trim, trim_chars,
};
use crate::booking::store::has_prefix;

verus! {

/// A parsed markdown document: frontmatter key/value pairs plus the body text.
pub struct Doc {
    pub meta: Vec<(String, String)>,
    pub body: String,
}

/// `str::split_inclusive('\n')`: the lines of `s`, each with its newline
/// (the last may lack one); no lines for empty text.
pub open spec fn lines_incl(s: Seq<char>) -> Seq<Seq<char>>
    decreases s.len(),
{
    if s.len() == 0 {
        seq![]
    } else {
        let p = lines_incl(s.drop_last());
        if p.len() == 0 || p.last().last() == '\n' {
            p.push(seq![s.last()])
        } else {
            p.update(p.len() - 1, p.last().push(s.last()))
        }
    }
}

/// `str::trim_end_matches(['\r', '\n'])`.
pub open spec fn trim_eol(s: Seq<char>) -> Seq<char>
    decreases s.len(),
{
    if s.len() > 0 && (s.last() == '\r' || s.last() == '\n') {
        trim_eol(s.drop_last())
    } else {
        s
    }
}

/// `str::trim_start_matches(['\r', '\n'])`.
pub open spec fn trim_leading_eol(s: Seq<char>) -> Seq<char>
    decreases s.len(),
{
    if s.len() > 0 && (s[0] == '\r' || s[0] == '\n') {
        trim_leading_eol(s.drop_first())
    } else {
        s
    }
}

/// One pair of matching surrounding quotes (`"` or `'`) removed, if present.
pub open spec fn unquoted(s: Seq<char>) -> Seq<char> {
    if s.len() >= 2 && ((s[0] == '"' && s.last() == '"') || (s[0] == '\'' && s.last() == '\'')) {
        s.subrange(1, s.len() - 1)
    } else {
        s
    }
}

/// The frontmatter entry of a line: `key: value` split at the first `:`, both
/// trimmed and the value unquoted; nothing for a line without `:` or with an
/// empty key.
pub open spec fn meta_entry(t: Seq<char>) -> Seq<(Seq<char>, Seq<char>)> {
    match find(t, ':') {
        Some(k) => {
            let key = trim(t.subrange(0, k));
            if key.len() > 0 {
                seq![(key, unquoted(trim(t.subrange(k + 1, t.len() as int))))]
            } else {
                seq![]
            }
        },
        None => seq![],
    }
}

/// The entries of the frontmatter lines up to the closing `---` line and how
/// many lines that takes, or `None` when no closing line comes.
pub open spec fn frontmatter(lines: Seq<Seq<char>>) -> Option<(Seq<(Seq<char>, Seq<char>)>, nat)>
    decreases lines.len(),
{
    if lines.len() == 0 {
        None
    } else if trim_eol(lines[0]) == "---"@ {
        Some((seq![], 1))
    } else {
        match frontmatter(lines.drop_first()) {
            Some((m, n)) => Some((meta_entry(trim_eol(lines[0])) + m, n + 1)),
            None => None,
        }
    }
}

/// The lines joined back together.
pub open spec fn joined(lines: Seq<Seq<char>>) -> Seq<char>
    decreases lines.len(),
{
    if lines.len() == 0 {
        seq![]
    } else {
        joined(lines.drop_last()) + lines.last()
    }
}

/// What follows an opening `---` fence, if the text opens with one.
pub open spec fn after_fence(raw: Seq<char>) -> Option<Seq<char>> {
    if has_prefix(raw, "---\n"@) {
        Some(raw.subrange(4, raw.len() as int))
    } else if has_prefix(raw, "---\r\n"@) {
        Some(raw.subrange(5, raw.len() as int))
    } else {
        None
    }
}

/// A document's frontmatter entries and body. Without an opening fence, or
/// when the fence is never closed, there are no entries and the body is the
/// whole text; otherwise the body is what follows the closing fence line,
/// leading line breaks dropped.
pub open spec fn parsed(raw: Seq<char>) -> (Seq<(Seq<char>, Seq<char>)>, Seq<char>) {
    match after_fence(raw) {
        None => (seq![], raw),
        Some(rest) => match frontmatter(lines_incl(rest)) {
            None => (seq![], raw),
            Some((m, n)) => (m, trim_leading_eol(joined(lines_incl(rest).subrange(n as int, lines_incl(rest).len() as int)))),
        },
    }
}

/// The value of the first entry with key `key`.
pub open spec fn meta_get(m: Seq<(Seq<char>, Seq<char>)>, key: Seq<char>) -> Option<Seq<char>>
    decreases m.len(),
{
    if m.len() == 0 {
        None
    } else if m[0].0 == key {
        Some(m[0].1)
    } else {
        meta_get(m.drop_first(), key)
    }
}

/// The entries of a document by their characters.
pub open spec fn meta_view(m: Seq<(String, String)>) -> Seq<(Seq<char>, Seq<char>)> {
    Seq::new(m.len(), |i: int| (m[i].0@, m[i].1@))
}

impl Doc {
    /// Look up a frontmatter value by key.
    pub fn get(&self, key: &str) -> (r: Option<&str>)
        ensures
            match r {
                Some(v) => meta_get(meta_view(self.meta@), key@) == Some(v@),
                None => meta_get(meta_view(self.meta@), key@) is None,
            },
    {
        let mut i: usize = 0;
        assert(meta_view(self.meta@).subrange(0, self.meta@.len() as int) =~= meta_view(self.meta@));
        while i < self.meta.len()
            invariant
                i <= self.meta@.len(),
                meta_get(meta_view(self.meta@), key@) == meta_get(
                    meta_view(self.meta@).subrange(i as int, self.meta@.len() as int),
                    key@,
                ),
            decreases self.meta@.len() - i,
        {
            let ghost rest = meta_view(self.meta@).subrange(i as int, self.meta@.len() as int);
            assert(rest[0] == (self.meta@[i as int].0@, self.meta@[i as int].1@));
            assert(rest.drop_first() =~= meta_view(self.meta@).subrange(i + 1, self.meta@.len() as int));
            if str_eq(self.meta[i].0.as_str(), key) {
                return Some(self.meta[i].1.as_str());
            }
            i = i + 1;
        }
        None
    }
}

fn lines_of(v: &Vec<char>) -> (r: Vec<Vec<char>>)
    ensures
        r@.len() == lines_incl(v@).len(),
        forall|k: int| 0 <= k < r@.len() ==> #[trigger] r@[k]@ == lines_incl(v@)[k],
{
    let mut out: Vec<Vec<char>> = Vec::new();
    let mut i: usize = 0;
    while i < v.len()
        invariant
            i <= v@.len(),
            out@.len() == lines_incl(v@.subrange(0, i as int)).len(),
            forall|k: int| 0 <= k < out@.len() ==> #[trigger] out@[k]@ == lines_incl(v@.subrange(0, i as int))[k],
        decreases v@.len() - i,
    {
        let ghost pre = v@.subrange(0, i as int);
        assert(v@.subrange(0, i + 1).drop_last() =~= pre);
        let c = v[i];
        let n = out.len();
        if n == 0 || out[n - 1][out[n - 1].len() - 1] == '\n' {
            proof {
                if n > 0 {
                    assert(out@[n - 1]@ == lines_incl(pre).last());
                }
            }
            let mut line: Vec<char> = Vec::new();
            line.push(c);
            out.push(line);
        } else {
            let mut last = out.pop().unwrap();
            assert(last@ == lines_incl(pre).last());
            last.push(c);
            out.push(last);
        }
        i = i + 1;
    }
    assert(v@.subrange(0, v@.len() as int) =~= v@);
    out
}

proof fn lemma_lines_nonempty(s: Seq<char>)
    ensures
        forall|k: int| 0 <= k < lines_incl(s).len() ==> #[trigger] lines_incl(s)[k].len() > 0,
    decreases s.len(),
{
    if s.len() > 0 {
        lemma_lines_nonempty(s.drop_last());
        let p = lines_incl(s.drop_last());
        assert forall|k: int| 0 <= k < lines_incl(s).len() implies #[trigger] lines_incl(s)[k].len() > 0 by {
            if k < p.len() && !(p.len() > 0 && p.last().last() != '\n' && k == p.len() - 1) {
                assert(lines_incl(s)[k] == p[k]);
            }
        }
    }
}

fn trim_eol_chars(v: &Vec<char>) -> (r: Vec<char>)
    ensures
        r@ == trim_eol(v@),
{
    let mut j = v.len();
    assert(v@.subrange(0, j as int) =~= v@);
    while j > 0 && (v[j - 1] == '\r' || v[j - 1] == '\n')
        invariant
            j <= v@.len(),
            trim_eol(v@) == trim_eol(v@.subrange(0, j as int)),
        decreases j,
    {
        assert(v@.subrange(0, j as int).drop_last() =~= v@.subrange(0, j - 1));
        j = j - 1;
    }
    slice_chars(v, 0, j)
}

fn trim_leading_eol_chars(v: &Vec<char>) -> (r: Vec<char>)
    ensures
        r@ == trim_leading_eol(v@),
{
    let mut i: usize = 0;
    assert(v@.subrange(0, v@.len() as int) =~= v@);
    while i < v.len() && (v[i] == '\r' || v[i] == '\n')
        invariant
            i <= v@.len(),
            trim_leading_eol(v@) == trim_leading_eol(v@.subrange(i as int, v@.len() as int)),
        decreases v@.len() - i,
    {
        assert(v@.subrange(i as int, v@.len() as int).drop_first() =~= v@.subrange(i + 1, v@.len() as int));
        i = i + 1;
    }
    slice_chars(v, i, v.len())
}

fn unquote_chars(v: &Vec<char>) -> (r: Vec<char>)
    ensures
        r@ == unquoted(v@),
{
    let n = v.len();
    if n >= 2 && ((v[0] == '"' && v[n - 1] == '"') || (v[0] == '\'' && v[n - 1] == '\'')) {
        slice_chars(v, 1, n - 1)
    } else {
        slice_chars(v, 0, n)
    }
}

fn push_meta_entry(meta: &mut Vec<(String, String)>, t: &Vec<char>)
    ensures
        meta_view(final(meta)@) == meta_view(old(meta)@) + meta_entry(t@),
{
    let ghost start = meta_view(meta@);
    let n = t.len();
    match find_char(t, ':') {
        Some(k) => {
            let key = trim_chars(&slice_chars(t, 0, k));
            if key.len() > 0 {
                let value = unquote_chars(&trim_chars(&slice_chars(t, k + 1, n)));
                meta.push((string_of(&key), string_of(&value)));
            }
        },
        None => {},
    }
    assert(meta_view(meta@) =~= start + meta_entry(t@));
}

/// Split YAML-ish frontmatter delimited by `---` lines from the markdown body.
/// A document that does not open with a `---` fence (or whose fence is never
/// closed) yields no entries and the whole text as body.
pub fn parse(raw: &str) -> (d: Doc)
    ensures
        (meta_view(d.meta@), d.body@) == parsed(raw@),
{
    let v = chars_of(raw);
    let fence_lf = chars_of("---\n");
    let fence_crlf = chars_of("---\r\n");
    let rest = if crate::text::starts_with(&v, &fence_lf) {
        proof {
            reveal_strlit("---\n");
        }
        slice_chars(&v, 4, v.len())
    } else if crate::text::starts_with(&v, &fence_crlf) {
        proof {
            reveal_strlit("---\n");
            reveal_strlit("---\r\n");
        }
        slice_chars(&v, 5, v.len())
    } else {
        return Doc { meta: Vec::new(), body: string_of(&v) };
    };
    assert(after_fence(raw@) == Some(rest@));
    let lines = lines_of(&rest);
    let ghost ls = lines_incl(rest@);
    proof {
        lemma_lines_nonempty(rest@);
    }
    let mut meta: Vec<(String, String)> = Vec::new();
    let mut consumed: usize = 0;
    let mut closed = false;
    assert(ls.subrange(0, ls.len() as int) =~= ls);
    while consumed < lines.len()
        invariant_except_break
            !closed,
            frontmatter(ls) == match frontmatter(ls.subrange(consumed as int, ls.len() as int)) {
                Some((m, n)) => Some((meta_view(meta@) + m, (n + consumed) as nat)),
                None => None,
            },
        invariant
            consumed <= lines@.len(),
            lines@.len() == ls.len(),
            forall|k: int| 0 <= k < lines@.len() ==> #[trigger] lines@[k]@ == ls[k],
        ensures
            closed ==> frontmatter(ls) == Some((meta_view(meta@), consumed as nat)),
            !closed ==> frontmatter(ls) is None,
        decreases lines@.len() - consumed,
    {
        let ghost tail = ls.subrange(consumed as int, ls.len() as int);
        assert(tail[0] == ls[consumed as int]);
        assert(tail.drop_first() =~= ls.subrange(consumed + 1, ls.len() as int));
        let t = trim_eol_chars(&lines[consumed]);
        consumed = consumed + 1;
        if crate::text::chars_eq_str(&t, "---") {
            closed = true;
            assert(meta_view(meta@) + Seq::<(Seq<char>, Seq<char>)>::empty() =~= meta_view(meta@));
            break;
        }
        let ghost before = meta_view(meta@);
        push_meta_entry(&mut meta, &t);
        proof {
            match frontmatter(tail.drop_first()) {
                Some((m, n)) => {
                    assert(before + (meta_entry(t@) + m) =~= meta_view(meta@) + m);
                },
                None => {},
            }
        }
    }
    if !closed {
        return Doc { meta: Vec::new(), body: string_of(&v) };
    }
    let mut body: Vec<char> = Vec::new();
    let mut k = consumed;
    assert(ls.subrange(consumed as int, consumed as int) =~= Seq::<Seq<char>>::empty());
    while k < lines.len()
        invariant
            consumed <= k <= lines@.len(),
            lines@.len() == ls.len(),
            forall|q: int| 0 <= q < lines@.len() ==> #[trigger] lines@[q]@ == ls[q],
            body@ == joined(ls.subrange(consumed as int, k as int)),
        decreases lines@.len() - k,
    {
        assert(ls.subrange(consumed as int, k + 1).drop_last() =~= ls.subrange(consumed as int, k as int));
        append_chars(&mut body, &lines[k]);
        k = k + 1;
    }
    let b = trim_leading_eol_chars(&body);
    Doc { meta, body: string_of(&b) }
}

// ---------------------------------------------------------------------------
// News listing
// ---------------------------------------------------------------------------

/// One entry of the news listing.
#[derive(Debug)]
pub struct NewsItem {
    pub slug: String,
    pub title: String,
    pub date: String,
    pub summary: String,
}

/// The listing entry of a news file: its slug, and its frontmatter title
/// (the slug when absent), date and summary (empty when absent).
pub open spec fn news_of(slug: Seq<char>, raw: Seq<char>) -> (Seq<char>, Seq<char>, Seq<char>, Seq<char>) {
    let m = parsed(raw).0;
    (
        slug,
        match meta_get(m, "title"@) {
            Some(t) => t,
            None => slug,
        },
        match meta_get(m, "date"@) {
            Some(d) => d,
            None => Seq::<char>::empty(),
        },
        match meta_get(m, "summary"@) {
            Some(x) => x,
            None => Seq::<char>::empty(),
        },
    )
}

/// An entry by its text.
pub open spec fn news_view(n: NewsItem) -> (Seq<char>, Seq<char>, Seq<char>, Seq<char>) {
    (n.slug@, n.title@, n.date@, n.summary@)
}

/// `x` placed after every entry of `s` dated no earlier (stable; ISO dates
/// compare as text).
pub open spec fn insert_news(
    s: Seq<(Seq<char>, Seq<char>, Seq<char>, Seq<char>)>,
    x: (Seq<char>, Seq<char>, Seq<char>, Seq<char>),
) -> Seq<(Seq<char>, Seq<char>, Seq<char>, Seq<char>)>
    decreases s.len(),
{
    if s.len() == 0 {
        seq![x]
    } else if !crate::text::lex_lt(s.last().2, x.2) {
        s.push(x)
    } else {
        insert_news(s.drop_last(), x).push(s.last())
    }
}

/// The entries newest first, ties in input order.
pub open spec fn newest_news(s: Seq<(Seq<char>, Seq<char>, Seq<char>, Seq<char>)>) -> Seq<
    (Seq<char>, Seq<char>, Seq<char>, Seq<char>),
>
    decreases s.len(),
{
    if s.len() == 0 {
        seq![]
    } else {
        insert_news(newest_news(s.drop_last()), s.last())
    }
}

/// The entries are newest first: no entry is dated before a later one.
pub open spec fn news_ordered(s: Seq<(Seq<char>, Seq<char>, Seq<char>, Seq<char>)>) -> bool {
    forall|i: int, j: int| 0 <= i < j < s.len() ==> !crate::text::lex_lt((#[trigger] s[i]).2, (#[trigger] s[j]).2)
}

proof fn lemma_not_before_trans(a: Seq<char>, b: Seq<char>, c: Seq<char>)
    requires
        !crate::text::lex_lt(a, b),
        !crate::text::lex_lt(b, c),
    ensures
        !crate::text::lex_lt(a, c),
{
    if crate::text::lex_lt(a, c) {
        if a != b {
            crate::text::lemma_lex_total(a, b);
        }
        if b != c {
            crate::text::lemma_lex_total(b, c);
        }
        if a == b || b == c {
        } else {
            crate::text::lemma_lex_trans(a, c, b);
        }
    }
}

proof fn lemma_insert_news_ordered(
    s: Seq<(Seq<char>, Seq<char>, Seq<char>, Seq<char>)>,
    x: (Seq<char>, Seq<char>, Seq<char>, Seq<char>),
)
    requires
        news_ordered(s),
    ensures
        news_ordered(insert_news(s, x)),
        insert_news(s, x).to_multiset() == s.to_multiset().insert(x),
    decreases s.len(),
{
    broadcast use vstd::seq_lib::group_to_multiset_ensures;
    if s.len() == 0 {
        assert(seq![x] =~= Seq::<(Seq<char>, Seq<char>, Seq<char>, Seq<char>)>::empty().push(x));
    } else if !crate::text::lex_lt(s.last().2, x.2) {
        let t = s.push(x);
        assert forall|i: int, j: int| 0 <= i < j < t.len() implies !crate::text::lex_lt(
            (#[trigger] t[i]).2,
            (#[trigger] t[j]).2,
        ) by {
            if j == s.len() {
                if i < s.len() - 1 {
                    assert(!crate::text::lex_lt(s[i].2, s[s.len() - 1].2));
                    lemma_not_before_trans(s[i].2, s.last().2, x.2);
                }
            } else {
                assert(t[i] == s[i] && t[j] == s[j]);
            }
        }
    } else {
        crate::text::lemma_lex_asym(s.last().2, x.2);
        let d = s.drop_last();
        assert(news_ordered(d)) by {
            assert forall|i: int, j: int| 0 <= i < j < d.len() implies !crate::text::lex_lt(
                (#[trigger] d[i]).2,
                (#[trigger] d[j]).2,
            ) by {
                assert(d[i] == s[i] && d[j] == s[j]);
            }
        }
        lemma_insert_news_ordered(d, x);
        let u = insert_news(d, x);
        assert(d.push(s.last()) =~= s);
        assert forall|k: int| 0 <= k < u.len() implies !crate::text::lex_lt((#[trigger] u[k]).2, s.last().2) by {
            assert(u.to_multiset().count(u[k]) > 0);
            assert(u.to_multiset().count(u[k]) == d.to_multiset().insert(x).count(u[k]));
            if u[k] != x {
                assert(d.to_multiset().count(u[k]) > 0);
                assert(d.contains(u[k]));
                let m = choose|m: int| 0 <= m < d.len() && d[m] == u[k];
                assert(s[m] == d[m]);
                assert(s[s.len() - 1] == s.last());
            }
        }
        let t = u.push(s.last());
        assert forall|i: int, j: int| 0 <= i < j < t.len() implies !crate::text::lex_lt(
            (#[trigger] t[i]).2,
            (#[trigger] t[j]).2,
        ) by {
            if j == u.len() {
                assert(t[i] == u[i]);
            } else {
                assert(t[i] == u[i] && t[j] == u[j]);
            }
        }
    }
}

/// The news listing holds every entry exactly once, newest date first.
pub proof fn lemma_newest_news(s: Seq<(Seq<char>, Seq<char>, Seq<char>, Seq<char>)>)
    ensures
        news_ordered(newest_news(s)),
        newest_news(s).to_multiset() == s.to_multiset(),
        newest_news(s).len() == s.len(),
    decreases s.len(),
{
    broadcast use vstd::seq_lib::group_to_multiset_ensures;
    if s.len() > 0 {
        lemma_newest_news(s.drop_last());
        lemma_insert_news_ordered(newest_news(s.drop_last()), s.last());
        assert(s.drop_last().push(s.last()) =~= s);
    }
    assert(newest_news(s).to_multiset().len() == newest_news(s).len());
    assert(s.to_multiset().len() == s.len());
}

/// The entries of news files given as (slug, text) pairs.
pub open spec fn news_entries(files: Seq<(String, String)>) -> Seq<(Seq<char>, Seq<char>, Seq<char>, Seq<char>)> {
    Seq::new(files.len(), |i: int| news_of(files[i].0@, files[i].1@))
}

fn news_item(slug: &str, raw: &str) -> (n: NewsItem)
    ensures
        news_view(n) == news_of(slug@, raw@),
{
    let doc = parse(raw);
    let title = match doc.get("title") {
        Some(t) => crate::text::owned(t),
        None => crate::text::owned(slug),
    };
    let date = match doc.get("date") {
        Some(d) => crate::text::owned(d),
        None => String::new(),
    };
    let summary = match doc.get("summary") {
        Some(x) => crate::text::owned(x),
        None => String::new(),
    };
    NewsItem { slug: crate::text::owned(slug), title, date, summary }
}

fn insert_news_exec(out: &mut Vec<NewsItem>, x: NewsItem)
    ensures
        final(out)@.len() == old(out)@.len() + 1,
        Seq::new(final(out)@.len(), |i: int| news_view(final(out)@[i])) == insert_news(
            Seq::new(old(out)@.len(), |i: int| news_view(old(out)@[i])),
            news_view(x),
        ),
{
    let ghost s = Seq::new(out@.len(), |i: int| news_view(out@[i]));
    let ghost xv = news_view(x);
    let mut j = out.len();
    assert(s.subrange(0, s.len() as int) =~= s);
    assert(s.subrange(s.len() as int, s.len() as int) =~= Seq::<(Seq<char>, Seq<char>, Seq<char>, Seq<char>)>::empty());
    while j > 0 && crate::text::str_less(out[j - 1].date.as_str(), x.date.as_str())
        invariant
            j <= s.len(),
            s == Seq::new(out@.len(), |i: int| news_view(out@[i])),
            xv == news_view(x),
            insert_news(s, xv) == insert_news(s.subrange(0, j as int), xv) + s.subrange(j as int, s.len() as int),
        decreases j,
    {
        let ghost pre = s.subrange(0, j as int);
        assert(pre.drop_last() =~= s.subrange(0, j - 1));
        assert(pre.last() == s[j - 1]);
        assert(insert_news(pre, xv) == insert_news(s.subrange(0, j - 1), xv).push(s[j - 1]));
        assert(insert_news(s.subrange(0, j - 1), xv).push(s[j - 1]) + s.subrange(j as int, s.len() as int)
            =~= insert_news(s.subrange(0, j - 1), xv) + s.subrange(j - 1, s.len() as int));
        j = j - 1;
    }
    proof {
        let pre = s.subrange(0, j as int);
        if j > 0 {
            assert(pre.last() == s[j - 1]);
            assert(insert_news(pre, xv) == pre.push(xv));
        } else {
            assert(pre =~= Seq::<(Seq<char>, Seq<char>, Seq<char>, Seq<char>)>::empty());
        }
    }
    out.insert(j, x);
    assert(Seq::new(out@.len(), |i: int| news_view(out@[i])) =~= insert_news(s, xv));
}

/// The news listing of files given as (slug, text) pairs: newest date first.
pub fn news_items(files: &Vec<(String, String)>) -> (r: Vec<NewsItem>)
    ensures
        Seq::new(r@.len(), |i: int| news_view(r@[i])) == newest_news(news_entries(files@)),
{
    let ghost all = news_entries(files@);
    let mut out: Vec<NewsItem> = Vec::new();
    let mut k: usize = 0;
    assert(Seq::new(out@.len(), |i: int| news_view(out@[i])) =~= newest_news(all.subrange(0, 0)));
    while k < files.len()
        invariant
            k <= files@.len(),
            all == news_entries(files@),
            Seq::new(out@.len(), |i: int| news_view(out@[i])) == newest_news(all.subrange(0, k as int)),
        decreases files@.len() - k,
    {
        assert(all.subrange(0, k + 1).drop_last() =~= all.subrange(0, k as int));
        assert(all.subrange(0, k + 1).last() == all[k as int]);
        let item = news_item(files[k].0.as_str(), files[k].1.as_str());
        insert_news_exec(&mut out, item);
        k = k + 1;
    }
    assert(all.subrange(0, files@.len() as int) =~= all);
    out
}

} // verus!
