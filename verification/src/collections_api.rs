//! The declared collections' REST surface, in its parts that are the site's
//! own rules: routing of `/api/collections/...` paths, query parameters and
//! their percent-decoding, field types from the schema, the text embedded
//! for semantic search, the keys of stored embeddings, and download headers.
//! Storage, blobs, the schema file and the embedding client are the
//! caller's.

use vstd::prelude::*;
use vstd::utf8::encode_utf8;
use crate::meta::{meta_get, Meta, MetaValue};
use crate::text::{
    append_str, chars_of, eq_ignore_case, eq_ignore_case_chars, lower_chars, lower_seq, owned, parse_unsigned,
    parse_unsigned_spec, slice_chars, split_chars, split_on, str_eq, string_of, text_from_utf8_lossy, trim, trim_chars,
    lossy_text, find, find_char,
};
use crate::ws::frame::{be_bytes, be_value, lemma_be_round_trip, lemma_pow256_seven, pow256, push_be_bytes};

verus! {

// ---------------------------------------------------------------------------
// Percent-decoding and query parameters
// ---------------------------------------------------------------------------

/// The value of an ASCII hex digit byte.
pub open spec fn hex_value(b: u8) -> Option<u8> {
    if 48 <= b <= 57 {
        Some((b - 48) as u8)
    } else if 97 <= b <= 102 {
        Some((b - 87) as u8)
    } else if 65 <= b <= 70 {
        Some((b - 55) as u8)
    } else {
        None
    }
}

fn hex_value_exec(b: u8) -> (r: Option<u8>)
    ensures
        r == hex_value(b),
{
    if 48 <= b && b <= 57 {
        Some(b - 48)
    } else if 97 <= b && b <= 102 {
        Some(b - 87)
    } else if 65 <= b && b <= 70 {
        Some(b - 55)
    } else {
        None
    }
}

/// Form-decoding of bytes: `+` becomes a space and `%XX` the byte it names;
/// a `%` not followed by two hex digits stays as it is.
pub open spec fn percent_bytes(b: Seq<u8>) -> Seq<u8>
    decreases b.len(),
{
    if b.len() == 0 {
        b
    } else if b[0] == 43 {
        seq![32u8] + percent_bytes(b.drop_first())
    } else if b[0] == 37 && b.len() >= 3 && hex_value(b[1]) is Some && hex_value(b[2]) is Some {
        seq![(hex_value(b[1]).unwrap() * 16 + hex_value(b[2]).unwrap()) as u8] + percent_bytes(
            b.subrange(3, b.len() as int),
        )
    } else {
        seq![b[0]] + percent_bytes(b.drop_first())
    }
}

/// A query value decoded: its UTF-8 bytes form-decoded, then read back as
/// text (invalid sequences replaced).
pub open spec fn decoded(s: Seq<char>) -> Seq<char> {
    lossy_text(percent_bytes(encode_utf8(s)))
}

/// Decode a query value.
pub fn percent_decode(s: &str) -> (r: String)
    ensures
        r@ == decoded(s@),
{
    let bytes = s.as_bytes();
    let ghost b = bytes@;
    let mut out: Vec<u8> = Vec::new();
    let mut i: usize = 0;
    assert(b.subrange(0, b.len() as int) =~= b);
    while i < bytes.len()
        invariant
            i <= b.len(),
            bytes@ == b,
            out@ + percent_bytes(b.subrange(i as int, b.len() as int)) == percent_bytes(b),
        decreases b.len() - i,
    {
        let ghost rest = b.subrange(i as int, b.len() as int);
        let c = bytes[i];
        if c == 43 {
            out.push(32);
            assert(rest.drop_first() =~= b.subrange(i + 1, b.len() as int));
            assert(out@ + percent_bytes(b.subrange(i + 1, b.len() as int)) =~= percent_bytes(b));
            i = i + 1;
        } else if c == 37 && bytes.len() - i >= 3 {
            match (hex_value_exec(bytes[i + 1]), hex_value_exec(bytes[i + 2])) {
                (Some(h), Some(l)) => {
                    assert(rest[1] == b[i + 1] && rest[2] == b[i + 2]);
                    out.push(h * 16 + l);
                    assert(rest.subrange(3, rest.len() as int) =~= b.subrange(i + 3, b.len() as int));
                    assert(out@ + percent_bytes(b.subrange(i + 3, b.len() as int)) =~= percent_bytes(b));
                    i = i + 3;
                },
                _ => {
                    assert(rest[1] == b[i + 1] && rest[2] == b[i + 2]);
                    out.push(c);
                    assert(rest.drop_first() =~= b.subrange(i + 1, b.len() as int));
                    assert(out@ + percent_bytes(b.subrange(i + 1, b.len() as int)) =~= percent_bytes(b));
                    i = i + 1;
                },
            }
        } else {
            out.push(c);
            assert(rest.drop_first() =~= b.subrange(i + 1, b.len() as int));
            assert(out@ + percent_bytes(b.subrange(i + 1, b.len() as int)) =~= percent_bytes(b));
            i = i + 1;
        }
    }
    assert(b.subrange(b.len() as int, b.len() as int) =~= Seq::<u8>::empty());
    assert(out@ =~= percent_bytes(b));
    text_from_utf8_lossy(out.as_slice())
}

/// A `key=value` pair split at its first `=` (a pair without one is all
/// key, with an empty value).
pub open spec fn split_pair(p: Seq<char>) -> (Seq<char>, Seq<char>) {
    match find(p, '=') {
        Some(k) => (p.subrange(0, k), p.subrange(k + 1, p.len() as int)),
        None => (p, Seq::<char>::empty()),
    }
}

/// The `?search`, `?limit` and `?expand` parameters read from `&`-separated
/// pairs, each later pair overriding an earlier one with its key (a `limit`
/// that does not parse as a `usize` clears the limit).
pub open spec fn params_of(pairs: Seq<Seq<char>>) -> (Option<Seq<char>>, Option<int>, Option<Seq<char>>)
    decreases pairs.len(),
{
    if pairs.len() == 0 {
        (None, None, None)
    } else {
        let prev = params_of(pairs.drop_last());
        let (k, v) = split_pair(pairs.last());
        if k == "search"@ {
            (Some(decoded(v)), prev.1, prev.2)
        } else if k == "limit"@ {
            (prev.0, parse_unsigned_spec(decoded(v), usize::MAX as int), prev.2)
        } else if k == "expand"@ {
            (prev.0, prev.1, Some(decoded(v)))
        } else {
            prev
        }
    }
}

/// The query parameters of a list or search request.
#[derive(Debug)]
pub struct QueryParams {
    pub search: Option<String>,
    pub limit: Option<usize>,
    /// The raw `?expand=` value (comma-separated relation field names).
    pub expand: Option<String>,
}

/// The parameters a query string names.
pub open spec fn query_params(query: Option<Seq<char>>) -> (Option<Seq<char>>, Option<int>, Option<Seq<char>>) {
    match query {
        Some(q) => params_of(split_on(q, '&')),
        None => (None, None, None),
    }
}

/// The parameters by their text and numbers.
pub open spec fn params_view(p: QueryParams) -> (Option<Seq<char>>, Option<int>, Option<Seq<char>>) {
    (
        crate::text::opt_chars(p.search),
        match p.limit {
            Some(n) => Some(n as int),
            None => None,
        },
        crate::text::opt_chars(p.expand),
    )
}

impl QueryParams {
    /// Read `search`, `limit` and `expand` from a query string.
    pub fn parse(query: Option<&str>) -> (p: QueryParams)
        ensures
            params_view(p) == query_params(crate::booking::store::opt_str(query)),
    {
        let mut search: Option<String> = None;
        let mut limit: Option<usize> = None;
        let mut expand: Option<String> = None;
        let q = match query {
            Some(q) => q,
            None => return QueryParams { search, limit, expand },
        };
        let pairs = split_chars(&chars_of(q), '&');
        let ghost ps = split_on(q@, '&');
        let mut i: usize = 0;
        while i < pairs.len()
            invariant
                i <= pairs@.len(),
                query == Some(q),
                ps == split_on(q@, '&'),
                pairs@.len() == ps.len(),
                forall|k: int| 0 <= k < pairs@.len() ==> #[trigger] pairs@[k]@ == ps[k],
                params_view(QueryParams { search, limit, expand }) == params_of(ps.subrange(0, i as int)),
            decreases pairs@.len() - i,
        {
            let ghost pre = ps.subrange(0, i + 1);
            assert(pre.drop_last() =~= ps.subrange(0, i as int));
            assert(pre.last() == ps[i as int]);
            let p = &pairs[i];
            assert(p@ == ps[i as int]);
            let n = p.len();
            let (k, v) = match find_char(p, '=') {
                Some(j) => (slice_chars(p, 0, j), slice_chars(p, j + 1, n)),
                None => (slice_chars(p, 0, n), Vec::new()),
            };
            proof {
                assert(p@.subrange(0, n as int) =~= p@);
                assert(v@ =~= split_pair(p@).1 || v@ == split_pair(p@).1);
            }
            let vs = string_of(&v);
            if crate::text::chars_eq_str(&k, "search") {
                search = Some(percent_decode(vs.as_str()));
            } else if crate::text::chars_eq_str(&k, "limit") {
                let d = percent_decode(vs.as_str());
                limit = match parse_unsigned(&chars_of(d.as_str()), usize::MAX as u64) {
                    Some(n) => Some(n as usize),
                    None => None,
                };
            } else if crate::text::chars_eq_str(&k, "expand") {
                expand = Some(percent_decode(vs.as_str()));
            }
            i = i + 1;
        }
        assert(ps.subrange(0, ps.len() as int) =~= ps);
        QueryParams { search, limit, expand }
    }
}

/// The names in an `?expand=` value: its comma-separated pieces, trimmed,
/// empty ones dropped.
pub open spec fn expand_names(pieces: Seq<Seq<char>>) -> Seq<Seq<char>>
    decreases pieces.len(),
{
    if pieces.len() == 0 {
        seq![]
    } else if trim(pieces.last()).len() == 0 {
        expand_names(pieces.drop_last())
    } else {
        expand_names(pieces.drop_last()).push(trim(pieces.last()))
    }
}

/// Split an `?expand=` value into field names.
pub fn expand_fields(expand: &str) -> (r: Vec<String>)
    ensures
        r@.len() == expand_names(split_on(expand@, ',')).len(),
        forall|i: int| 0 <= i < r@.len() ==> #[trigger] r@[i]@ == expand_names(split_on(expand@, ','))[i],
{
    let pieces = split_chars(&chars_of(expand), ',');
    let ghost ps = split_on(expand@, ',');
    let mut out: Vec<String> = Vec::new();
    let mut i: usize = 0;
    while i < pieces.len()
        invariant
            i <= pieces@.len(),
            ps == split_on(expand@, ','),
            pieces@.len() == ps.len(),
            forall|k: int| 0 <= k < pieces@.len() ==> #[trigger] pieces@[k]@ == ps[k],
            out@.len() == expand_names(ps.subrange(0, i as int)).len(),
            forall|k: int| 0 <= k < out@.len() ==> #[trigger] out@[k]@ == expand_names(ps.subrange(0, i as int))[k],
        decreases pieces@.len() - i,
    {
        let ghost pre = ps.subrange(0, i + 1);
        assert(pre.drop_last() =~= ps.subrange(0, i as int));
        assert(pre.last() == ps[i as int]);
        assert(pieces@[i as int]@ == ps[i as int]);
        let t = trim_chars(&pieces[i]);
        if t.len() > 0 {
            out.push(string_of(&t));
        }
        i = i + 1;
    }
    assert(ps.subrange(0, ps.len() as int) =~= ps);
    out
}

/// Whether a `Content-Type` header names a multipart form upload: its media
/// type (before any `;`), trimmed, is `multipart/form-data` in any case.
pub fn is_multipart(content_type: &str) -> (r: bool)
    ensures
        r == eq_ignore_case(trim(split_on(content_type@, ';')[0]), "multipart/form-data"@),
{
    let pieces = split_chars(&chars_of(content_type), ';');
    proof {
        crate::text::lemma_split_nonempty(content_type@, ';');
    }
    let first = trim_chars(&pieces[0]);
    eq_ignore_case_chars(&first, &chars_of("multipart/form-data"))
}

/// `s` with `\` and `"` escaped by a backslash.
pub open spec fn quote_escaped(s: Seq<char>) -> Seq<char>
    decreases s.len(),
{
    if s.len() == 0 {
        s
    } else {
        quote_escaped(s.drop_last()) + if s.last() == '\\' {
            seq!['\\', '\\']
        } else if s.last() == '"' {
            seq!['\\', '"']
        } else {
            seq![s.last()]
        }
    }
}

/// The `Content-Disposition` of a download: `inline`, with the stored file
/// name quoted when there is one.
pub open spec fn disposition(filename: Seq<char>) -> Seq<char> {
    if filename.len() == 0 {
        "inline"@
    } else {
        "inline; filename=\""@ + quote_escaped(filename) + "\""@
    }
}

pub fn content_disposition(filename: &str) -> (r: String)
    ensures
        r@ == disposition(filename@),
{
    let f = chars_of(filename);
    if f.len() == 0 {
        return owned("inline");
    }
    let mut v: Vec<char> = Vec::new();
    append_str(&mut v, "inline; filename=\"");
    let ghost head = v@;
    let mut i: usize = 0;
    while i < f.len()
        invariant
            i <= f@.len(),
            f@ == filename@,
            v@ == head + quote_escaped(f@.subrange(0, i as int)),
        decreases f@.len() - i,
    {
        assert(f@.subrange(0, i + 1).drop_last() =~= f@.subrange(0, i as int));
        assert(f@.subrange(0, i + 1).last() == f@[i as int]);
        let c = f[i];
        if c == '\\' {
            v.push('\\');
            v.push('\\');
        } else if c == '"' {
            v.push('\\');
            v.push('"');
        } else {
            v.push(c);
        }
        assert(v@ =~= head + quote_escaped(f@.subrange(0, i + 1)));
        i = i + 1;
    }
    assert(f@.subrange(0, f@.len() as int) =~= f@);
    append_str(&mut v, "\"");
    string_of(&v)
}

// ---------------------------------------------------------------------------
// Embedding keys
// ---------------------------------------------------------------------------

/// The key prefix of a collection's embeddings: its name's bytes, then `:`.
pub open spec fn embed_prefix(name: Seq<char>) -> Seq<u8> {
    encode_utf8(name).push(58u8)
}

/// The storage key of a record's embedding: the prefix, then the id's eight
/// big-endian bytes.
pub open spec fn embed_key_of(name: Seq<char>, id: u64) -> Seq<u8> {
    embed_prefix(name) + be_bytes(id as nat, 8)
}

pub fn embed_key(name: &str, id: u64) -> (k: Vec<u8>)
    ensures
        k@ == embed_key_of(name@, id),
{
    let mut key = vstd::slice::slice_to_vec(name.as_bytes());
    key.push(58);
    push_be_bytes(&mut key, id, 8);
    key
}

/// The half-open range `[start, end)` of one collection's embedding keys:
/// the prefix, and the prefix with its `:` raised to `;`.
pub fn embed_prefix_bounds(name: &str) -> (r: (Vec<u8>, Vec<u8>))
    ensures
        r.0@ == embed_prefix(name@),
        r.1@ == encode_utf8(name@).push(59u8),
{
    let mut start = vstd::slice::slice_to_vec(name.as_bytes());
    start.push(58);
    let mut end = vstd::slice::slice_to_vec(name.as_bytes());
    end.push(59);
    (start, end)
}

/// The record id an embedding key names, when it is `name`'s prefix then
/// exactly eight bytes.
pub open spec fn id_of_key(name: Seq<char>, key: Seq<u8>) -> Option<u64> {
    let p = embed_prefix(name);
    if key.len() == p.len() + 8 && key.subrange(0, p.len() as int) == p {
        Some(be_value(key.subrange(p.len() as int, key.len() as int)) as u64)
    } else {
        None
    }
}

pub fn id_from_key(name: &str, key: &[u8]) -> (r: Option<u64>)
    ensures
        r == id_of_key(name@, key@),
{
    let mut p = vstd::slice::slice_to_vec(name.as_bytes());
    p.push(58);
    let pl = p.len();
    if key.len() < pl || key.len() - pl != 8 {
        return None;
    }
    let mut i: usize = 0;
    while i < pl
        invariant
            i <= pl,
            pl == p@.len(),
            p@ == embed_prefix(name@),
            key@.len() == pl + 8,
            forall|j: int| 0 <= j < i ==> key@[j] == p@[j],
        decreases pl - i,
    {
        if key[i] != p[i] {
            assert(key@.subrange(0, pl as int)[i as int] != p@[i as int]);
            return None;
        }
        i = i + 1;
    }
    assert(key@.subrange(0, pl as int) =~= p@);
    let mut v: u64 = 0;
    let mut k: usize = 0;
    let ghost tail = key@.subrange(pl as int, key@.len() as int);
    while k < 8
        invariant
            k <= 8,
            key@.len() == pl + 8,
            key@.len() <= usize::MAX,
            tail == key@.subrange(pl as int, key@.len() as int),
            v as nat == be_value(tail.subrange(0, k as int)),
            be_value(tail.subrange(0, k as int)) < pow256(k as nat),
        decreases 8 - k,
    {
        proof {
            lemma_pow256_seven();
            lemma_pow256_le(k as nat);
            assert(tail.subrange(0, k + 1).drop_last() =~= tail.subrange(0, k as int));
            assert(tail.subrange(0, k + 1).last() == tail[k as int]);
            assert(v * 256 + tail[k as int] < pow256(k as nat) * 256) by (nonlinear_arith)
                requires
                    v < pow256(k as nat),
                    tail[k as int] < 256,
            ;
            assert(pow256(k as nat + 1) == pow256(k as nat) * 256);
        }
        v = v * 256 + key[pl + k] as u64;
        k = k + 1;
    }
    assert(tail.subrange(0, 8) =~= tail);
    Some(v)
}

proof fn lemma_pow256_le(k: nat)
    requires
        k < 8,
    ensures
        pow256(k) * 256 <= 0x1_0000_0000_0000_0000,
        pow256(k + 1) == pow256(k) * 256,
{
    reveal_with_fuel(pow256, 9);
    lemma_pow256_seven();
}

/// A record's embedding key names it again: reading the id back from the
/// key gives the id.
pub proof fn lemma_embed_key_round_trip(name: Seq<char>, id: u64)
    ensures
        id_of_key(name, embed_key_of(name, id)) == Some(id),
{
    lemma_pow256_seven();
    lemma_be_round_trip(id as nat, 8);
    let p = embed_prefix(name);
    let k = embed_key_of(name, id);
    assert(k.subrange(0, p.len() as int) =~= p);
    assert(k.subrange(p.len() as int, k.len() as int) =~= be_bytes(id as nat, 8));
}

/// Byte strings in lexicographic order, as slices compare.
pub open spec fn bytes_lt(a: Seq<u8>, b: Seq<u8>) -> bool
    decreases a.len(),
{
    if a.len() == 0 {
        b.len() > 0
    } else if b.len() == 0 {
        false
    } else if a[0] != b[0] {
        a[0] < b[0]
    } else {
        bytes_lt(a.drop_first(), b.drop_first())
    }
}

proof fn lemma_prefix_not_below(p: Seq<u8>, rest: Seq<u8>)
    ensures
        !bytes_lt(p + rest, p),
    decreases p.len(),
{
    if p.len() > 0 {
        assert((p + rest).drop_first() =~= p.drop_first() + rest);
        lemma_prefix_not_below(p.drop_first(), rest);
    }
}

proof fn lemma_below_raised(s: Seq<u8>, rest: Seq<u8>)
    ensures
        bytes_lt(s.push(58u8) + rest, s.push(59u8)),
    decreases s.len(),
{
    if s.len() == 0 {
        assert((s.push(58u8) + rest)[0] == 58u8);
        assert(s.push(59u8)[0] == 59u8);
    } else {
        assert((s.push(58u8) + rest).drop_first() =~= s.drop_first().push(58u8) + rest);
        assert(s.push(59u8).drop_first() =~= s.drop_first().push(59u8));
        lemma_below_raised(s.drop_first(), rest);
    }
}

/// Every embedding key of a collection lies in its range: not below the
/// start, below the end.
pub proof fn lemma_embed_key_in_bounds(name: Seq<char>, id: u64)
    ensures
        !bytes_lt(embed_key_of(name, id), embed_prefix(name)),
        bytes_lt(embed_key_of(name, id), encode_utf8(name).push(59u8)),
{
    lemma_prefix_not_below(embed_prefix(name), be_bytes(id as nat, 8));
    lemma_below_raised(encode_utf8(name), be_bytes(id as nat, 8));
}

// ---------------------------------------------------------------------------
// Schema field types and embedded text
// ---------------------------------------------------------------------------

/// The type of a collection field.
#[derive(Debug)]
pub enum FieldKind {
    Text,
    Int,
    Float,
    Bool,
    File,
    /// A reference to a record of the named collection.
    Relation(String),
}

/// A field of a collection: name, type, and whether it is required and
/// embedded for semantic search.
#[derive(Debug)]
pub struct FieldSpec {
    pub name: String,
    pub kind: FieldKind,
    pub required: bool,
    pub embed: bool,
}

/// The type a schema's `type` string names, read in any case; a relation
/// needs the collection it points to.
pub open spec fn kind_of(coll: Seq<char>, name: Seq<char>, type_str: Seq<char>, target: Option<Seq<char>>) -> Result<
    int,
    Seq<char>,
> {
    let t = lower_seq(type_str);
    if t == "text"@ {
        Ok(0)
    } else if t == "int"@ {
        Ok(1)
    } else if t == "float"@ {
        Ok(2)
    } else if t == "bool"@ {
        Ok(3)
    } else if t == "file"@ {
        Ok(4)
    } else if t == "relation"@ {
        match target {
            Some(c) => Ok(5),
            None => Err(
                "collection `"@ + coll + "`, field `"@ + name
                    + "`: a `relation` field requires a `collection = \"<target>\"` key"@,
            ),
        }
    } else {
        Err(
            "collection `"@ + coll + "`, field `"@ + name + "`: unknown type `"@ + t
                + "` (expected text|int|float|bool|relation|file)"@,
        )
    }
}

/// The number of a field type (in declaration order).
pub open spec fn kind_index(k: FieldKind) -> int {
    match k {
        FieldKind::Text => 0,
        FieldKind::Int => 1,
        FieldKind::Float => 2,
        FieldKind::Bool => 3,
        FieldKind::File => 4,
        FieldKind::Relation(_) => 5,
    }
}

/// Map a schema `type` string to a field type; `target` is the field's
/// `collection` key, if it has one.
pub fn field_kind(coll: &str, name: &str, type_str: &str, target: Option<&str>) -> (r: Result<FieldKind, String>)
    ensures
        match r {
            Ok(k) => kind_of(coll@, name@, type_str@, crate::booking::store::opt_str(target)) == Ok::<int, Seq<char>>(
                kind_index(k),
            ) && (k matches FieldKind::Relation(c) ==> crate::booking::store::opt_str(target) == Some(c@)),
            Err(e) => kind_of(coll@, name@, type_str@, crate::booking::store::opt_str(target)) == Err::<
                int,
                Seq<char>,
            >(e@),
        },
{
    let t = string_of(&lower_chars(&chars_of(type_str)));
    let ts = t.as_str();
    if str_eq(ts, "text") {
        Ok(FieldKind::Text)
    } else if str_eq(ts, "int") {
        Ok(FieldKind::Int)
    } else if str_eq(ts, "float") {
        Ok(FieldKind::Float)
    } else if str_eq(ts, "bool") {
        Ok(FieldKind::Bool)
    } else if str_eq(ts, "file") {
        Ok(FieldKind::File)
    } else if str_eq(ts, "relation") {
        match target {
            Some(c) => Ok(FieldKind::Relation(owned(c))),
            None => {
                let mut v: Vec<char> = Vec::new();
                append_str(&mut v, "collection `");
                append_str(&mut v, coll);
                append_str(&mut v, "`, field `");
                append_str(&mut v, name);
                append_str(&mut v, "`: a `relation` field requires a `collection = \"<target>\"` key");
                Err(string_of(&v))
            },
        }
    } else {
        let mut v: Vec<char> = Vec::new();
        append_str(&mut v, "collection `");
        append_str(&mut v, coll);
        append_str(&mut v, "`, field `");
        append_str(&mut v, name);
        append_str(&mut v, "`: unknown type `");
        append_str(&mut v, ts);
        append_str(&mut v, "` (expected text|int|float|bool|relation|file)");
        Err(string_of(&v))
    }
}

/// The texts a record contributes for embedding: the string values of its
/// embedded text fields, in schema order.
pub open spec fn embed_parts(fields: Seq<FieldSpec>, record: Meta) -> Seq<Seq<char>>
    decreases fields.len(),
{
    if fields.len() == 0 {
        seq![]
    } else {
        let f = fields.last();
        let prev = embed_parts(fields.drop_last(), record);
        if f.embed && f.kind is Text {
            match meta_get(record, f.name@) {
                Some(MetaValue::Str(s)) => prev.push(s@),
                _ => prev,
            }
        } else {
            prev
        }
    }
}

/// Texts joined by newlines.
pub open spec fn joined_lines(parts: Seq<Seq<char>>) -> Seq<char>
    decreases parts.len(),
{
    if parts.len() == 0 {
        seq![]
    } else if parts.len() == 1 {
        parts[0]
    } else {
        joined_lines(parts.drop_last()) + seq!['\n'] + parts.last()
    }
}

/// The text embedded for a record.
pub fn embed_text(fields: &Vec<FieldSpec>, record: &Meta) -> (r: String)
    ensures
        r@ == joined_lines(embed_parts(fields@, *record)),
{
    let mut v: Vec<char> = Vec::new();
    let mut started = false;
    let mut i: usize = 0;
    while i < fields.len()
        invariant
            i <= fields@.len(),
            v@ == joined_lines(embed_parts(fields@.subrange(0, i as int), *record)),
            started == (embed_parts(fields@.subrange(0, i as int), *record).len() > 0),
        decreases fields@.len() - i,
    {
        let ghost pre = fields@.subrange(0, i as int);
        assert(fields@.subrange(0, i + 1).drop_last() =~= pre);
        assert(fields@.subrange(0, i + 1).last() == fields@[i as int]);
        let f = &fields[i];
        if f.embed && matches!(f.kind, FieldKind::Text) {
            if let Some(MetaValue::Str(s)) = record.get(f.name.as_str()) {
                let ghost parts = embed_parts(pre, *record);
                if started {
                    v.push('\n');
                }
                append_str(&mut v, s.as_str());
                started = true;
                proof {
                    let np = parts.push(s@);
                    assert(np.drop_last() =~= parts);
                    if parts.len() == 0 {
                        assert(joined_lines(parts) =~= Seq::<char>::empty());
                        assert(np[0] == s@);
                        assert(v@ =~= joined_lines(np));
                    } else {
                        assert(v@ =~= joined_lines(np));
                    }
                }
            }
        }
        i = i + 1;
    }
    assert(fields@.subrange(0, fields@.len() as int) =~= fields@);
    string_of(&v)
}

// ---------------------------------------------------------------------------
// Routing
// ---------------------------------------------------------------------------

/// The request methods the collections surface answers.
#[derive(Debug, Clone, Copy, PartialEq, Eq, Structural)]
pub enum HttpMethod {
    Get,
    Post,
    Patch,
    Delete,
    Other,
}

/// What a `/api/collections...` request is.
#[derive(Debug)]
pub enum Route {
    /// The manifest of every collection.
    Manifest,
    /// List, or search, the records of a collection.
    List { name: String },
    /// Create a record.
    Create { name: String },
    /// Read one record.
    Get { name: String, id: u64 },
    /// Change one record.
    Update { name: String, id: u64 },
    /// Delete one record.
    Delete { name: String, id: u64 },
    /// Answer 404 `unknown collection: <name>`.
    UnknownCollection { name: String },
    /// Answer 400 `invalid record id`.
    InvalidId,
}

/// Route a request by its method and the path segments after
/// `/api/collections`, given the declared collection names. `None` when the
/// path is not a collections route (or the method has no meaning there), so
/// the caller handles it.
pub fn route(method: HttpMethod, segments: &Vec<String>, collections: &Vec<String>) -> (r: Option<Route>)
    ensures
        segments@.len() == 0 ==> (if method == HttpMethod::Get {
            r matches Some(Route::Manifest)
        } else {
            r is None
        }),
        segments@.len() == 1 || segments@.len() > 3 ==> r is None,
        segments@.len() >= 2 && segments@.len() <= 3 && segments@[1]@ != "records"@ ==> r is None,
        segments@.len() >= 2 && segments@.len() <= 3 && segments@[1]@ == "records"@ && !(exists|i: int|
            0 <= i < collections@.len() && #[trigger] collections@[i]@ == segments@[0]@) ==> (r matches Some(
            Route::UnknownCollection { name },
        ) && name@ == segments@[0]@),
        segments@.len() == 2 && segments@[1]@ == "records"@ && (exists|i: int|
            0 <= i < collections@.len() && #[trigger] collections@[i]@ == segments@[0]@) ==> match method {
            HttpMethod::Get => r matches Some(Route::List { name }) && name@ == segments@[0]@,
            HttpMethod::Post => r matches Some(Route::Create { name }) && name@ == segments@[0]@,
            _ => r is None,
        },
        segments@.len() == 3 && segments@[1]@ == "records"@ && (exists|i: int|
            0 <= i < collections@.len() && #[trigger] collections@[i]@ == segments@[0]@) ==> match parse_unsigned_spec(
            segments@[2]@,
            u64::MAX as int,
        ) {
            None => r matches Some(Route::InvalidId),
            Some(id) => match method {
                HttpMethod::Get => r matches Some(Route::Get { name, id: n }) && name@ == segments@[0]@ && n == id,
                HttpMethod::Patch => r matches Some(Route::Update { name, id: n }) && name@ == segments@[0]@ && n
                    == id,
                HttpMethod::Delete => r matches Some(Route::Delete { name, id: n }) && name@ == segments@[0]@ && n
                    == id,
                _ => r is None,
            },
        },
{
    let n = segments.len();
    if n == 0 {
        return if method == HttpMethod::Get {
            Some(Route::Manifest)
        } else {
            None
        };
    }
    if n == 1 || n > 3 || !str_eq(segments[1].as_str(), "records") {
        return None;
    }
    let name = &segments[0];
    let mut known = false;
    let mut i: usize = 0;
    while i < collections.len()
        invariant
            i <= collections@.len(),
            known == (exists|j: int| 0 <= j < i && #[trigger] collections@[j]@ == name@),
        decreases collections@.len() - i,
    {
        if str_eq(collections[i].as_str(), name.as_str()) {
            known = true;
        }
        i = i + 1;
    }
    if !known {
        return Some(Route::UnknownCollection { name: name.clone() });
    }
    if n == 2 {
        return match method {
            HttpMethod::Get => Some(Route::List { name: name.clone() }),
            HttpMethod::Post => Some(Route::Create { name: name.clone() }),
            _ => None,
        };
    }
    let id = match parse_unsigned(&chars_of(segments[2].as_str()), u64::MAX) {
        Some(id) => id,
        None => return Some(Route::InvalidId),
    };
    match method {
        HttpMethod::Get => Some(Route::Get { name: name.clone(), id }),
        HttpMethod::Patch => Some(Route::Update { name: name.clone(), id }),
        HttpMethod::Delete => Some(Route::Delete { name: name.clone(), id }),
        _ => None,
    }
}

} // verus!
