//! Line and payment metadata: the members of a JSON object, first to last,
//! with the values the checkout rules read held as plain values and every
//! other value kept as its JSON text.

use vstd::prelude::*;
use crate::json::{json_string, push_json_string};
use crate::text::{append_chars, append_str, i64_chars, int_str, owned, str_eq, trim, trim_str, string_of};

verus! {

/// A metadata value.
#[derive(Debug)]
pub enum MetaValue {
    /// An integer.
    Int(i64),
    /// A finite number with a fractional part: its JSON text, and the integer
    /// the rules read from it (the number truncated toward zero, saturating).
    Num { json: String, whole: i64 },
    /// A string.
    Str(String),
    /// A nested object.
    Obj(Box<Meta>),
    /// Any other value (null, a boolean, an array), as JSON text.
    Other(String),
}

/// A JSON object's members, first to last.
#[derive(Debug)]
pub enum Meta {
    End,
    Member(String, MetaValue, Box<Meta>),
}

impl Clone for MetaValue {
    fn clone(&self) -> (r: MetaValue)
        ensures
            r == *self,
        decreases self,
    {
        match self {
            MetaValue::Int(n) => MetaValue::Int(*n),
            MetaValue::Num { json, whole } => MetaValue::Num { json: json.clone(), whole: *whole },
            MetaValue::Str(s) => MetaValue::Str(s.clone()),
            MetaValue::Obj(m) => MetaValue::Obj(Box::new((&**m).clone())),
            MetaValue::Other(t) => MetaValue::Other(t.clone()),
        }
    }
}

impl Clone for Meta {
    fn clone(&self) -> (r: Meta)
        ensures
            r == *self,
        decreases self,
    {
        match self {
            Meta::End => Meta::End,
            Meta::Member(k, v, rest) => Meta::Member(k.clone(), v.clone(), Box::new((&**rest).clone())),
        }
    }
}

/// The members as (key, value) pairs.
pub open spec fn members(m: Meta) -> Seq<(Seq<char>, MetaValue)>
    decreases m,
{
    match m {
        Meta::End => seq![],
        Meta::Member(k, v, rest) => seq![(k@, v)] + members(*rest),
    }
}

/// The value of the first member named `key`.
pub open spec fn meta_get(m: Meta, key: Seq<char>) -> Option<MetaValue>
    decreases m,
{
    match m {
        Meta::End => None,
        Meta::Member(k, v, rest) => if k@ == key {
            Some(v)
        } else {
            meta_get(*rest, key)
        },
    }
}

/// The object without its members named `key`.
pub open spec fn without(m: Meta, key: Seq<char>) -> Meta
    decreases m,
{
    match m {
        Meta::End => Meta::End,
        Meta::Member(k, v, rest) => if k@ == key {
            without(*rest, key)
        } else {
            Meta::Member(k, v, Box::new(without(*rest, key)))
        },
    }
}

/// The object with a member appended at the end.
pub open spec fn appended(m: Meta, k: String, v: MetaValue) -> Meta
    decreases m,
{
    match m {
        Meta::End => Meta::Member(k, v, Box::new(Meta::End)),
        Meta::Member(k0, v0, rest) => Meta::Member(k0, v0, Box::new(appended(*rest, k, v))),
    }
}

proof fn lemma_appended(m: Meta, k: String, v: MetaValue)
    ensures
        members(appended(m, k, v)) == members(m).push((k@, v)),
    decreases m,
{
    match m {
        Meta::End => {
            assert(members(Meta::End) =~= Seq::<(Seq<char>, MetaValue)>::empty());
            assert(members(appended(m, k, v)) =~= seq![(k@, v)]);
        },
        Meta::Member(k0, v0, rest) => {
            lemma_appended(*rest, k, v);
            assert(members(appended(m, k, v)) =~= members(m).push((k@, v)));
        },
    }
}

proof fn lemma_without_at(m: Meta, key: Seq<char>, q: Seq<char>)
    ensures
        q == key ==> meta_get(without(m, key), q) is None,
        q != key ==> meta_get(without(m, key), q) == meta_get(m, q),
    decreases m,
{
    match m {
        Meta::End => {},
        Meta::Member(k0, v0, rest) => {
            lemma_without_at(*rest, key, q);
        },
    }
}

proof fn lemma_without(m: Meta, key: Seq<char>)
    ensures
        meta_get(without(m, key), key) is None,
        forall|q: Seq<char>| q != key ==> #[trigger] meta_get(without(m, key), q) == meta_get(m, q),
{
    lemma_without_at(m, key, key);
    assert forall|q: Seq<char>| q != key implies #[trigger] meta_get(without(m, key), q) == meta_get(m, q) by {
        lemma_without_at(m, key, q);
    }
}

proof fn lemma_appended_get(m: Meta, k: String, v: MetaValue, q: Seq<char>)
    requires
        meta_get(m, k@) is None,
    ensures
        q == k@ ==> meta_get(appended(m, k, v), q) == Some(v),
        q != k@ ==> meta_get(appended(m, k, v), q) == meta_get(m, q),
    decreases m,
{
    match m {
        Meta::End => {},
        Meta::Member(k0, v0, rest) => {
            lemma_appended_get(*rest, k, v, q);
        },
    }
}

impl Meta {
    /// The object built from `pairs`, in order.
    pub fn from_pairs(pairs: Vec<(String, MetaValue)>) -> (m: Meta)
        ensures
            members(m).len() == pairs@.len(),
            forall|i: int| 0 <= i < pairs@.len() ==> #[trigger] members(m)[i] == (pairs@[i].0@, pairs@[i].1),
    {
        let mut pairs = pairs;
        let ghost orig = pairs@;
        let mut m = Meta::End;
        while pairs.len() > 0
            invariant
                pairs@ == orig.subrange(0, pairs@.len() as int),
                pairs@.len() <= orig.len(),
                members(m).len() == orig.len() - pairs@.len(),
                forall|i: int| 0 <= i < members(m).len() ==> #[trigger] members(m)[i] == (
                    orig[pairs@.len() + i].0@,
                    orig[pairs@.len() + i].1,
                ),
            decreases pairs@.len(),
        {
            let (k, v) = pairs.pop().unwrap();
            let ghost old_m = m;
            m = Meta::Member(k, v, Box::new(m));
            assert forall|i: int| 0 <= i < members(m).len() implies #[trigger] members(m)[i] == (
                orig[pairs@.len() + i].0@,
                orig[pairs@.len() + i].1,
            ) by {
                if i > 0 {
                    assert(members(m)[i] == members(old_m)[i - 1]);
                }
            }
        }
        m
    }

    /// The value of the first member named `key`.
    pub fn get(&self, key: &str) -> (r: Option<&MetaValue>)
        ensures
            match r {
                Some(v) => meta_get(*self, key@) == Some(*v),
                None => meta_get(*self, key@) is None,
            },
        decreases self,
    {
        match self {
            Meta::End => None,
            Meta::Member(k, v, rest) => {
                if str_eq(k.as_str(), key) {
                    Some(v)
                } else {
                    (&**rest).get(key)
                }
            },
        }
    }

    /// The object with every member named `key` replaced by one member with
    /// `value`, placed last.
    pub fn with(&self, key: &str, value: MetaValue) -> (r: Meta)
        ensures
            members(r) == members(without(*self, key@)).push((key@, value)),
            meta_get(r, key@) == Some(value),
            forall|k: Seq<char>| k != key@ ==> #[trigger] meta_get(r, k) == meta_get(*self, k),
    {
        let w = self.without_key(key);
        let k = owned(key);
        let ghost v = value;
        let r = w.append(k, value);
        proof {
            lemma_appended(w, k, v);
            lemma_without(*self, key@);
            assert forall|q: Seq<char>| q != key@ implies #[trigger] meta_get(r, q) == meta_get(*self, q) by {
                lemma_appended_get(w, k, v, q);
            }
            lemma_appended_get(w, k, v, key@);
        }
        r
    }

    fn without_key(&self, key: &str) -> (r: Meta)
        ensures
            r == without(*self, key@),
        decreases self,
    {
        match self {
            Meta::End => Meta::End,
            Meta::Member(k, v, rest) => {
                let tail = (&**rest).without_key(key);
                if str_eq(k.as_str(), key) {
                    tail
                } else {
                    Meta::Member(k.clone(), v.clone(), Box::new(tail))
                }
            },
        }
    }

    fn append(self, k: String, v: MetaValue) -> (r: Meta)
        ensures
            r == appended(self, k, v),
        decreases self,
    {
        match self {
            Meta::End => Meta::Member(k, v, Box::new(Meta::End)),
            Meta::Member(k0, v0, rest) => Meta::Member(k0, v0, Box::new((*rest).append(k, v))),
        }
    }
}

// ---------------------------------------------------------------------------
// JSON text
// ---------------------------------------------------------------------------

/// A value's JSON text.
pub open spec fn value_json(v: MetaValue) -> Seq<char>
    decreases v, 1int,
{
    match v {
        MetaValue::Int(n) => int_str(n as int),
        MetaValue::Num { json, whole } => json@,
        MetaValue::Str(s) => json_string(s@),
        MetaValue::Obj(m) => "{"@ + members_json(*m) + "}"@,
        MetaValue::Other(t) => t@,
    }
}

/// The members' JSON text, comma-separated.
pub open spec fn members_json(m: Meta) -> Seq<char>
    decreases m, 0int,
{
    match m {
        Meta::End => seq![],
        Meta::Member(k, v, rest) => json_string(k@) + ":"@ + value_json(v) + match *rest {
            Meta::End => Seq::<char>::empty(),
            _ => ","@ + members_json(*rest),
        },
    }
}

/// The object's JSON text.
pub open spec fn meta_json(m: Meta) -> Seq<char> {
    "{"@ + members_json(m) + "}"@
}

fn push_value_json(out: &mut Vec<char>, v: &MetaValue)
    ensures
        final(out)@ == old(out)@ + value_json(*v),
    decreases v, 1int,
{
    match v {
        MetaValue::Int(n) => append_chars(out, &i64_chars(*n)),
        MetaValue::Num { json, whole } => append_str(out, json.as_str()),
        MetaValue::Str(s) => push_json_string(out, s.as_str()),
        MetaValue::Obj(m) => {
            let ghost start = out@;
            append_str(out, "{");
            push_members_json(out, &**m);
            append_str(out, "}");
            assert(out@ =~= start + value_json(*v));
        },
        MetaValue::Other(t) => append_str(out, t.as_str()),
    }
}

fn push_members_json(out: &mut Vec<char>, m: &Meta)
    ensures
        final(out)@ == old(out)@ + members_json(*m),
    decreases m, 0int,
{
    match m {
        Meta::End => {
            assert(old(out)@ + members_json(*m) =~= old(out)@);
        },
        Meta::Member(k, v, rest) => {
            let ghost start = out@;
            push_json_string(out, k.as_str());
            append_str(out, ":");
            push_value_json(out, v);
            match &**rest {
                Meta::End => {},
                _ => {
                    append_str(out, ",");
                    push_members_json(out, &**rest);
                },
            }
            assert(out@ =~= start + members_json(*m));
        },
    }
}

/// Append the object's JSON text.
pub fn push_meta_json(out: &mut Vec<char>, m: &Meta)
    ensures
        final(out)@ == old(out)@ + meta_json(*m),
{
    let ghost start = out@;
    append_str(out, "{");
    push_members_json(out, m);
    append_str(out, "}");
    assert(out@ =~= start + meta_json(*m));
}

/// The object as JSON text.
pub fn to_json(m: &Meta) -> (r: String)
    ensures
        r@ == meta_json(*m),
{
    let mut v: Vec<char> = Vec::new();
    push_meta_json(&mut v, m);
    string_of(&v)
}

// ---------------------------------------------------------------------------
// Reading values
// ---------------------------------------------------------------------------

/// The trimmed string under `key`, when it is a string with something left
/// after trimming.
pub open spec fn meta_str_spec(m: Meta, key: Seq<char>) -> Option<Seq<char>> {
    match meta_get(m, key) {
        Some(MetaValue::Str(s)) => if trim(s@).len() > 0 {
            Some(trim(s@))
        } else {
            None
        },
        _ => None,
    }
}

/// The trimmed, non-empty string under `key`.
pub fn meta_str(m: &Meta, key: &str) -> (r: Option<String>)
    ensures
        crate::text::opt_chars(r) == meta_str_spec(*m, key@),
{
    match m.get(key) {
        Some(MetaValue::Str(s)) => {
            let t = trim_str(s.as_str());
            if t.len() > 0 {
                Some(string_of(&t))
            } else {
                None
            }
        },
        _ => None,
    }
}

} // verus!
