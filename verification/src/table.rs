//! A string-keyed record table kept in key order: the shape of the site's
//! persistent B+trees (one record per key, scans in ascending key order),
//! held in memory.

use vstd::prelude::*;
use crate::text::{lemma_lex_asym, lemma_lex_irreflexive, lemma_lex_total, lemma_lex_trans, lex_lt, str_eq, str_less};

verus! {

/// Keys strictly ascending.
pub open spec fn keys_sorted<V>(s: Seq<(Seq<char>, V)>) -> bool {
    forall|i: int, j: int| 0 <= i < j < s.len() ==> lex_lt(#[trigger] s[i].0, #[trigger] s[j].0)
}

/// The value stored under `k`, if any.
pub open spec fn lookup<V>(s: Seq<(Seq<char>, V)>, k: Seq<char>) -> Option<V>
    decreases s.len(),
{
    if s.len() == 0 {
        None
    } else if s[0].0 == k {
        Some(s[0].1)
    } else {
        lookup(s.drop_first(), k)
    }
}

/// The entries after storing `v` under `k`: the record under `k` is replaced
/// in place, or a new one goes where its key sorts.
pub open spec fn upsert<V>(s: Seq<(Seq<char>, V)>, k: Seq<char>, v: V) -> Seq<(Seq<char>, V)>
    decreases s.len(),
{
    if s.len() == 0 {
        seq![(k, v)]
    } else if s[0].0 == k {
        seq![(k, v)] + s.drop_first()
    } else if lex_lt(k, s[0].0) {
        seq![(k, v)] + s
    } else {
        seq![s[0]] + upsert(s.drop_first(), k, v)
    }
}

/// The entries without the record under `k`.
pub open spec fn erase<V>(s: Seq<(Seq<char>, V)>, k: Seq<char>) -> Seq<(Seq<char>, V)>
    decreases s.len(),
{
    if s.len() == 0 {
        s
    } else if s[0].0 == k {
        s.drop_first()
    } else {
        seq![s[0]] + erase(s.drop_first(), k)
    }
}

/// The entries of a vector of keyed records, by their characters.
pub open spec fn entries_view<V>(e: Seq<(String, V)>) -> Seq<(Seq<char>, V)> {
    Seq::new(e.len(), |i: int| (e[i].0@, e[i].1))
}

proof fn lemma_upsert_props<V>(s: Seq<(Seq<char>, V)>, k: Seq<char>, v: V)
    requires
        keys_sorted(s),
    ensures
        keys_sorted(upsert(s, k, v)),
        forall|i: int| 0 <= i < upsert(s, k, v).len() ==> (#[trigger] upsert(s, k, v)[i].0 == k
            || exists|j: int| 0 <= j < s.len() && s[j].0 == upsert(s, k, v)[i].0),
    decreases s.len(),
{
    let u = upsert(s, k, v);
    if s.len() == 0 {
    } else if s[0].0 == k {
        assert forall|i: int, j: int| 0 <= i < j < u.len() implies lex_lt(#[trigger] u[i].0, #[trigger] u[j].0) by {
            assert(s[i].0 == u[i].0 || i == 0);
            assert(u[j].0 == s[j].0);
        }
        assert forall|i: int| 0 <= i < u.len() implies (#[trigger] u[i].0 == k || exists|j: int| 0 <= j < s.len() && s[j].0 == u[i].0) by {
            if i > 0 {
                assert(s[i].0 == u[i].0);
            }
        }
    } else if lex_lt(k, s[0].0) {
        assert forall|i: int, j: int| 0 <= i < j < u.len() implies lex_lt(#[trigger] u[i].0, #[trigger] u[j].0) by {
            if i == 0 {
                if j > 1 {
                    lemma_lex_trans(k, s[0].0, s[j - 1].0);
                }
            } else {
                assert(u[i].0 == s[i - 1].0 && u[j].0 == s[j - 1].0);
            }
        }
        assert forall|i: int| 0 <= i < u.len() implies (#[trigger] u[i].0 == k || exists|j: int| 0 <= j < s.len() && s[j].0 == u[i].0) by {
            if i > 0 {
                assert(s[i - 1].0 == u[i].0);
            }
        }
    } else {
        let t = s.drop_first();
        assert forall|i: int, j: int| 0 <= i < j < t.len() implies lex_lt(#[trigger] t[i].0, #[trigger] t[j].0) by {
            assert(t[i].0 == s[i + 1].0 && t[j].0 == s[j + 1].0);
        }
        lemma_upsert_props(t, k, v);
        let r = upsert(t, k, v);
        lemma_lex_total(k, s[0].0);
        assert forall|i: int, j: int| 0 <= i < j < u.len() implies lex_lt(#[trigger] u[i].0, #[trigger] u[j].0) by {
            if i == 0 {
                let x = r[j - 1].0;
                assert(u[j].0 == x);
                if x != k {
                    let jj = choose|jj: int| 0 <= jj < t.len() && t[jj].0 == x;
                    assert(s[jj + 1].0 == x);
                }
            } else {
                assert(u[i].0 == r[i - 1].0 && u[j].0 == r[j - 1].0);
            }
        }
        assert forall|i: int| 0 <= i < u.len() implies (#[trigger] u[i].0 == k || exists|j: int| 0 <= j < s.len() && s[j].0 == u[i].0) by {
            if i > 0 {
                assert(u[i].0 == r[i - 1].0);
                if r[i - 1].0 != k {
                    let jj = choose|jj: int| 0 <= jj < t.len() && t[jj].0 == r[i - 1].0;
                    assert(s[jj + 1].0 == u[i].0);
                }
            }
        }
    }
}

/// Storing a record keeps the keys in ascending order.
pub proof fn lemma_upsert_sorted<V>(s: Seq<(Seq<char>, V)>, k: Seq<char>, v: V)
    requires
        keys_sorted(s),
    ensures
        keys_sorted(upsert(s, k, v)),
{
    lemma_upsert_props(s, k, v);
}

/// Storing under `k` and reading `k` back gives what was stored; every other
/// key reads as before.
#[verifier::spinoff_prover]
pub proof fn lemma_lookup_upsert<V>(s: Seq<(Seq<char>, V)>, k: Seq<char>, v: V, other: Seq<char>)
    ensures
        lookup(upsert(s, k, v), k) == Some(v),
        other != k ==> lookup(upsert(s, k, v), other) == lookup(s, other),
    decreases s.len(),
{
    let u = upsert(s, k, v);
    if s.len() == 0 {
        assert(u.len() == 1 && u[0] == (k, v));
        assert(u.drop_first() =~= Seq::<(Seq<char>, V)>::empty());
        if other != k {
            assert(lookup(u, other) == lookup(u.drop_first(), other));
        }
    } else if s[0].0 == k {
        assert(u[0] == (k, v));
        assert(u.drop_first() =~= s.drop_first());
        if other != k {
            assert(lookup(u, other) == lookup(s.drop_first(), other));
        }
    } else if lex_lt(k, s[0].0) {
        assert(u[0] == (k, v));
        assert(u.drop_first() =~= s);
    } else {
        lemma_lookup_upsert(s.drop_first(), k, v, other);
        assert(u[0] == s[0]);
        assert(u.drop_first() =~= upsert(s.drop_first(), k, v));
        if other != k && s[0].0 != other {
            assert(lookup(u, other) == lookup(upsert(s.drop_first(), k, v), other));
        }
    }
}

/// In a key-sorted table, storing under a key that is there replaces its
/// entry in place.
pub proof fn lemma_upsert_in_place<V>(s: Seq<(Seq<char>, V)>, j: int, v: V)
    requires
        keys_sorted(s),
        0 <= j < s.len(),
    ensures
        upsert(s, s[j].0, v) == s.update(j, (s[j].0, v)),
    decreases s.len(),
{
    let k = s[j].0;
    if j == 0 {
        assert(upsert(s, k, v) =~= s.update(0, (k, v)));
    } else {
        assert(lex_lt(s[0].0, s[j].0));
        lemma_lex_irreflexive(k);
        lemma_lex_asym(s[0].0, k);
        let t = s.drop_first();
        assert(keys_sorted(t)) by {
            assert forall|a: int, b: int| 0 <= a < b < t.len() implies lex_lt(#[trigger] t[a].0, #[trigger] t[b].0) by {
                assert(t[a] == s[a + 1] && t[b] == s[b + 1]);
            }
        }
        assert(t[j - 1] == s[j]);
        lemma_upsert_in_place(t, j - 1, v);
        assert(upsert(s, k, v) =~= s.update(j, (k, v)));
    }
}

/// In a key-sorted table, the entry at `i` is what its key looks up.
pub proof fn lemma_lookup_at<V>(s: Seq<(Seq<char>, V)>, i: int)
    requires
        keys_sorted(s),
        0 <= i < s.len(),
    ensures
        lookup(s, s[i].0) == Some(s[i].1),
    decreases s.len(),
{
    if i > 0 {
        lemma_lex_irreflexive(s[i].0);
        assert(s[0].0 != s[i].0);
        let t = s.drop_first();
        assert forall|a: int, b: int| 0 <= a < b < t.len() implies lex_lt(#[trigger] t[a].0, #[trigger] t[b].0) by {
            assert(t[a].0 == s[a + 1].0 && t[b].0 == s[b + 1].0);
        }
        lemma_lookup_at(t, i - 1);
    }
}

/// A key found nowhere in the entries looks up nothing.
pub proof fn lemma_lookup_absent<V>(s: Seq<(Seq<char>, V)>, k: Seq<char>)
    requires
        forall|i: int| 0 <= i < s.len() ==> #[trigger] s[i].0 != k,
    ensures
        lookup(s, k) is None,
    decreases s.len(),
{
    if s.len() > 0 {
        let t = s.drop_first();
        assert forall|i: int| 0 <= i < t.len() implies #[trigger] t[i].0 != k by {
            assert(t[i] == s[i + 1]);
        }
        lemma_lookup_absent(t, k);
    }
}

/// Deleting `k` leaves nothing under `k` and every other key as it was.
pub proof fn lemma_lookup_erase<V>(s: Seq<(Seq<char>, V)>, k: Seq<char>, other: Seq<char>)
    requires
        keys_sorted(s),
    ensures
        lookup(erase(s, k), k) is None,
        other != k ==> lookup(erase(s, k), other) == lookup(s, other),
    decreases s.len(),
{
    if s.len() > 0 {
        let t = s.drop_first();
        assert forall|a: int, b: int| 0 <= a < b < t.len() implies lex_lt(#[trigger] t[a].0, #[trigger] t[b].0) by {
            assert(t[a] == s[a + 1] && t[b] == s[b + 1]);
        }
        if s[0].0 == k {
            assert forall|i: int| 0 <= i < t.len() implies #[trigger] t[i].0 != k by {
                assert(lex_lt(s[0].0, s[i + 1].0));
                lemma_lex_irreflexive(k);
            }
            lemma_lookup_absent(t, k);
        } else {
            lemma_lookup_erase(t, k, other);
            let e = erase(s, k);
            assert(e[0] == s[0]);
            assert(e.drop_first() =~= erase(t, k));
        }
    }
}

/// A key that looks something up names an entry holding it.
pub proof fn lemma_lookup_some<V>(s: Seq<(Seq<char>, V)>, k: Seq<char>) -> (i: int)
    requires
        lookup(s, k) is Some,
    ensures
        0 <= i < s.len(),
        s[i].0 == k,
        s[i].1 == lookup(s, k).unwrap(),
    decreases s.len(),
{
    if s[0].0 == k {
        0
    } else {
        let j = lemma_lookup_some(s.drop_first(), k);
        j + 1
    }
}

/// The entries with each value mapped through `f`.
pub open spec fn map_values<V, W>(s: Seq<(Seq<char>, V)>, f: spec_fn(V) -> W) -> Seq<(Seq<char>, W)> {
    Seq::new(s.len(), |i: int| (s[i].0, f(s[i].1)))
}

/// Mapping the values commutes with storing a record.
pub proof fn lemma_map_upsert<V, W>(s: Seq<(Seq<char>, V)>, k: Seq<char>, v: V, f: spec_fn(V) -> W)
    ensures
        map_values(upsert(s, k, v), f) == upsert(map_values(s, f), k, f(v)),
    decreases s.len(),
{
    let m = map_values(s, f);
    if s.len() == 0 {
        assert(map_values(upsert(s, k, v), f) =~= seq![(k, f(v))]);
    } else if s[0].0 == k {
        assert(m.drop_first() =~= map_values(s.drop_first(), f));
        assert(map_values(upsert(s, k, v), f) =~= seq![(k, f(v))] + m.drop_first());
    } else if lex_lt(k, s[0].0) {
        assert(map_values(upsert(s, k, v), f) =~= seq![(k, f(v))] + m);
    } else {
        lemma_map_upsert(s.drop_first(), k, v, f);
        assert(m.drop_first() =~= map_values(s.drop_first(), f));
        assert(map_values(upsert(s, k, v), f) =~= seq![m[0]] + map_values(upsert(s.drop_first(), k, v), f));
    }
}

/// Records under string keys, one per key, in ascending key order.
pub struct Table<V> {
    entries: Vec<(String, V)>,
}

impl<V> Table<V> {
    /// The entries in key order.
    pub closed spec fn view(&self) -> Seq<(Seq<char>, V)> {
        entries_view(self.entries@)
    }

    #[verifier::type_invariant]
    closed spec fn sorted(&self) -> bool {
        keys_sorted(entries_view(self.entries@))
    }

    /// An empty table.
    pub fn new() -> (t: Table<V>)
        ensures
            t.view() == Seq::<(Seq<char>, V)>::empty(),
    {
        let t = Table { entries: Vec::new() };
        assert(entries_view(t.entries@) =~= Seq::<(Seq<char>, V)>::empty());
        t
    }

    /// The number of records.
    pub fn len(&self) -> (n: usize)
        ensures
            n == self.view().len(),
    {
        self.entries.len()
    }

    /// The record at position `i` in key order.
    pub fn at(&self, i: usize) -> (r: (&String, &V))
        requires
            i < self.view().len(),
        ensures
            r.0@ == self.view()[i as int].0,
            *r.1 == self.view()[i as int].1,
    {
        let e = &self.entries[i];
        (&e.0, &e.1)
    }

    /// The record stored under `key`, if any.
    pub fn get(&self, key: &str) -> (r: Option<&V>)
        ensures
            match r {
                Some(v) => lookup(self.view(), key@) == Some(*v),
                None => lookup(self.view(), key@) is None,
            },
    {
        let mut i: usize = 0;
        assert(entries_view(self.entries@).subrange(0, self.entries@.len() as int) =~= entries_view(self.entries@));
        while i < self.entries.len()
            invariant
                i <= self.entries@.len(),
                lookup(self.view(), key@) == lookup(
                    entries_view(self.entries@).subrange(i as int, self.entries@.len() as int),
                    key@,
                ),
            decreases self.entries@.len() - i,
        {
            let ghost rest = entries_view(self.entries@).subrange(i as int, self.entries@.len() as int);
            assert(rest[0] == (self.entries@[i as int].0@, self.entries@[i as int].1));
            assert(rest.drop_first() =~= entries_view(self.entries@).subrange(i + 1, self.entries@.len() as int));
            if str_eq(self.entries[i].0.as_str(), key) {
                return Some(&self.entries[i].1);
            }
            i = i + 1;
        }
        None
    }

    /// Store `value` under `key`, replacing any record there.
    #[verifier::spinoff_prover]
    #[verifier::rlimit(30)]
    pub fn insert(&mut self, key: &str, value: V)
        ensures
            final(self).view() == upsert(old(self).view(), key@, value),
    {
        proof {
            use_type_invariant(&*self);
        }
        let ghost s = self.view();
        let mut i: usize = 0;
        assert(s.subrange(0, s.len() as int) =~= s);
        assert(Seq::<(Seq<char>, V)>::empty() + s =~= s);
        while i < self.entries.len() && str_less(self.entries[i].0.as_str(), key)
            invariant
                i <= self.entries@.len(),
                s == entries_view(self.entries@),
                keys_sorted(s),
                upsert(s, key@, value) == s.subrange(0, i as int) + upsert(
                    s.subrange(i as int, s.len() as int),
                    key@,
                    value,
                ),
                forall|j: int| 0 <= j < i ==> lex_lt(#[trigger] s[j].0, key@),
            decreases self.entries@.len() - i,
        {
            let ghost rest = s.subrange(i as int, s.len() as int);
            assert(rest[0].0 == s[i as int].0);
            proof {
                lemma_lex_asym(s[i as int].0, key@);
                if s[i as int].0 == key@ {
                    lemma_lex_irreflexive(key@);
                }
            }
            assert(rest.drop_first() =~= s.subrange(i + 1, s.len() as int));
            assert(s.subrange(0, i as int) + (seq![s[i as int]] + upsert(rest.drop_first(), key@, value))
                =~= s.subrange(0, i + 1) + upsert(s.subrange(i + 1, s.len() as int), key@, value));
            i = i + 1;
        }
        let ghost rest = s.subrange(i as int, s.len() as int);
        proof {
            lemma_upsert_props(s, key@, value);
        }
        if i < self.entries.len() && str_eq(self.entries[i].0.as_str(), key) {
            assert(rest[0].0 == key@);
            let k = self.entries[i].0.clone();
            let mut e: Vec<(String, V)> = Vec::new();
            std::mem::swap(&mut e, &mut self.entries);
            e.set(i, (k, value));
            assert(entries_view(e@) =~= s.subrange(0, i as int) + (seq![(key@, value)]
                + rest.drop_first()));
            self.entries = e;
        } else {
            if i < self.entries.len() {
                assert(rest[0].0 == s[i as int].0);
                proof {
                    lemma_lex_total(key@, s[i as int].0);
                }
            } else {
                assert(rest =~= Seq::<(Seq<char>, V)>::empty());
            }
            let k = crate::text::owned(key);
            let mut e: Vec<(String, V)> = Vec::new();
            std::mem::swap(&mut e, &mut self.entries);
            e.insert(i, (k, value));
            assert(entries_view(e@) =~= s.subrange(0, i as int) + (seq![(key@, value)] + rest));
            self.entries = e;
        }
    }

    /// Delete the record under `key`, if any; whether one was there.
    #[verifier::spinoff_prover]
    #[verifier::rlimit(60)]
    pub fn remove(&mut self, key: &str) -> (found: bool)
        ensures
            final(self).view() == erase(old(self).view(), key@),
            found == (lookup(old(self).view(), key@) is Some),
    {
        proof {
            use_type_invariant(&*self);
        }
        let ghost s = self.view();
        let mut i: usize = 0;
        assert(s.subrange(0, s.len() as int) =~= s);
        while i < self.entries.len() && !str_eq(self.entries[i].0.as_str(), key)
            invariant
                i <= self.entries@.len(),
                s == entries_view(self.entries@),
                erase(s, key@) == s.subrange(0, i as int) + erase(s.subrange(i as int, s.len() as int), key@),
                lookup(s, key@) == lookup(s.subrange(i as int, s.len() as int), key@),
            decreases self.entries@.len() - i,
        {
            let ghost rest = s.subrange(i as int, s.len() as int);
            assert(rest[0] == s[i as int]);
            assert(rest.drop_first() =~= s.subrange(i + 1, s.len() as int));
            assert(s.subrange(0, i as int) + (seq![s[i as int]] + erase(rest.drop_first(), key@))
                =~= s.subrange(0, i + 1) + erase(s.subrange(i + 1, s.len() as int), key@));
            i = i + 1;
        }
        if i == self.entries.len() {
            assert(s.subrange(i as int, s.len() as int) =~= Seq::<(Seq<char>, V)>::empty());
            assert(s.subrange(0, i as int) + Seq::<(Seq<char>, V)>::empty() =~= s);
            return false;
        }
        let ghost rest = s.subrange(i as int, s.len() as int);
        assert(rest[0] == s[i as int]);
        assert(rest.drop_first() =~= s.subrange(i + 1, s.len() as int));
        let mut e: Vec<(String, V)> = Vec::new();
        std::mem::swap(&mut e, &mut self.entries);
        let _ = e.remove(i);
        assert(entries_view(e@) =~= s.subrange(0, i as int) + rest.drop_first());
        proof {
            assert forall|a: int, b: int| 0 <= a < b < entries_view(e@).len() implies lex_lt(
                #[trigger] entries_view(e@)[a].0,
                #[trigger] entries_view(e@)[b].0,
            ) by {
                let ia = if a < i { a } else { a + 1 };
                let ib = if b < i { b } else { b + 1 };
                assert(entries_view(e@)[a] == s[ia] && entries_view(e@)[b] == s[ib]);
            }
        }
        self.entries = e;
        true
    }

    /// The records in key order.
    pub fn entries(&self) -> (r: &Vec<(String, V)>)
        ensures
            entries_view(r@) == self.view(),
            keys_sorted(self.view()),
    {
        proof {
            use_type_invariant(self);
        }
        &self.entries
    }
}

} // verus!
