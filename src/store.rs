//! The store: a map from keys to values, kept as a vector of entries with
//! distinct keys.

use itertools::Itertools;
use vstd::prelude::*;

use crate::text::lex_lt;

verus! {

/// The map that a sequence of entries with distinct keys stands for.
pub open spec fn entries_map(s: Seq<(String, String)>) -> Map<Seq<char>, Seq<char>>
    decreases s.len(),
{
    if s.len() == 0 {
        Map::empty()
    } else {
        entries_map(s.drop_last()).insert(s.last().0@, s.last().1@)
    }
}

/// No two entries share a key.
pub open spec fn distinct_keys(s: Seq<(String, String)>) -> bool {
    forall|i: int, j: int| 0 <= i < j < s.len() ==> s[i].0@ != s[j].0@
}

/// `s` is ordered strictly ascending by key.
pub open spec fn sorted_by_key(s: Seq<(String, String)>) -> bool {
    forall|i: int, j: int| 0 <= i < j < s.len() ==> lex_lt(s[i].0@, s[j].0@)
}

/// `s` lists the map `m` exactly, each entry once, ordered ascending by key.
pub open spec fn lists(s: Seq<(String, String)>, m: Map<Seq<char>, Seq<char>>) -> bool {
    &&& s.len() == m.len()
    &&& sorted_by_key(s)
    &&& forall|i: int| 0 <= i < s.len() ==> m.contains_key(#[trigger] s[i].0@) && m[s[i].0@] == s[i].1@
    &&& forall|k: Seq<char>| #[trigger] m.contains_key(k) ==> has_key(s, k)
}

proof fn lemma_entries_map(s: Seq<(String, String)>)
    requires
        distinct_keys(s),
    ensures
        forall|k: Seq<char>| #[trigger] entries_map(s).contains_key(k) <==> exists|i: int| 0 <= i < s.len() && s[i].0@ == k,
        forall|i: int| 0 <= i < s.len() ==> #[trigger] entries_map(s)[s[i].0@] == s[i].1@,
        entries_map(s).dom().finite(),
        entries_map(s).len() == s.len(),
    decreases s.len(),
{
    if s.len() > 0 {
        let t = s.drop_last();
        lemma_entries_map(t);
        assert forall|k: Seq<char>| #[trigger] entries_map(s).contains_key(k) <==> exists|i: int| 0 <= i < s.len() && s[i].0@ == k by {
            if entries_map(s).contains_key(k) && k != s.last().0@ {
                let i = choose|i: int| 0 <= i < t.len() && t[i].0@ == k;
                assert(s[i].0@ == k);
            }
            if exists|i: int| 0 <= i < s.len() && s[i].0@ == k {
                let i = choose|i: int| 0 <= i < s.len() && s[i].0@ == k;
                if i < t.len() {
                    assert(t[i].0@ == k);
                }
            }
        }
        assert(!entries_map(t).contains_key(s.last().0@));
        assert forall|i: int| 0 <= i < s.len() implies #[trigger] entries_map(s)[s[i].0@] == s[i].1@ by {
            if i < t.len() {
                assert(t[i] == s[i]);
            }
        }
    }
}

proof fn lemma_entries_map_update(s: Seq<(String, String)>, i: int, e: (String, String))
    requires
        distinct_keys(s),
        0 <= i < s.len(),
        e.0@ == s[i].0@,
    ensures
        distinct_keys(s.update(i, e)),
        entries_map(s.update(i, e)) == entries_map(s).insert(e.0@, e.1@),
    decreases s.len(),
{
    let u = s.update(i, e);
    if i == s.len() - 1 {
        assert(u.drop_last() == s.drop_last());
        lemma_entries_map(s.drop_last());
        assert(entries_map(u) =~= entries_map(s).insert(e.0@, e.1@));
    } else {
        lemma_entries_map_update(s.drop_last(), i, e);
        assert(u.drop_last() == s.drop_last().update(i, e));
        assert(entries_map(u) =~= entries_map(s).insert(e.0@, e.1@));
    }
}

proof fn lemma_entries_map_remove(s: Seq<(String, String)>, i: int)
    requires
        distinct_keys(s),
        0 <= i < s.len(),
    ensures
        distinct_keys(s.remove(i)),
        entries_map(s.remove(i)) == entries_map(s).remove(s[i].0@),
    decreases s.len(),
{
    let u = s.remove(i);
    lemma_entries_map(s.drop_last());
    if i == s.len() - 1 {
        assert(u == s.drop_last());
        assert(entries_map(u) =~= entries_map(s).remove(s[i].0@));
    } else {
        lemma_entries_map_remove(s.drop_last(), i);
        assert(u.drop_last() == s.drop_last().remove(i));
        assert(entries_map(u) =~= entries_map(s).remove(s[i].0@));
    }
}

/// Two different strings are ordered one way or the other.
pub proof fn lemma_lex_total(a: Seq<char>, b: Seq<char>)
    requires
        a != b,
    ensures
        lex_lt(a, b) || lex_lt(b, a),
    decreases a.len(),
{
    if a.len() > 0 && b.len() > 0 && a[0] == b[0] {
        if a.drop_first() == b.drop_first() {
            assert(a =~= b) by {
                assert(a.drop_first().len() == a.len() - 1);
                assert(b.drop_first().len() == b.len() - 1);
                assert forall|i: int| 0 <= i < a.len() implies a[i] == b[i] by {
                    if i > 0 {
                        assert(a[i] == a.drop_first()[i - 1]);
                        assert(b[i] == b.drop_first()[i - 1]);
                    }
                }
            }
        }
        lemma_lex_total(a.drop_first(), b.drop_first());
    } else if a.len() == 0 && b.len() == 0 {
        assert(a =~= b);
    }
}

/// No string comes before itself.
pub proof fn lemma_lex_irreflexive(a: Seq<char>)
    ensures
        !lex_lt(a, a),
    decreases a.len(),
{
    if a.len() > 0 {
        lemma_lex_irreflexive(a.drop_first());
    }
}

/// Of two strings, at most one comes before the other.
pub proof fn lemma_lex_asymmetric(a: Seq<char>, b: Seq<char>)
    requires
        lex_lt(a, b),
    ensures
        !lex_lt(b, a),
    decreases a.len(),
{
    if a.len() > 0 && b.len() > 0 && a[0] == b[0] {
        lemma_lex_asymmetric(a.drop_first(), b.drop_first());
    }
}

/// Some entry of `s` has the key `k`.
pub open spec fn has_key(s: Seq<(String, String)>, k: Seq<char>) -> bool {
    exists|j: int| 0 <= j < s.len() && s[j].0@ == k
}

/// Two sequences that hold the same keys, each ascending by key, hold the
/// same key at each position.
proof fn lemma_sorted_keys_unique(r1: Seq<(String, String)>, r2: Seq<(String, String)>)
    requires
        sorted_by_key(r1),
        sorted_by_key(r2),
        forall|i: int| 0 <= i < r1.len() ==> has_key(r2, #[trigger] r1[i].0@),
        forall|j: int| 0 <= j < r2.len() ==> has_key(r1, #[trigger] r2[j].0@),
    ensures
        r1.len() == r2.len(),
        forall|i: int| 0 <= i < r1.len() ==> #[trigger] r1[i].0@ == r2[i].0@,
    decreases r1.len(),
{
    if r1.len() == 0 {
        if r2.len() > 0 {
            assert(has_key(r1, r2[0].0@));
        }
    } else if r2.len() == 0 {
        assert(has_key(r2, r1[0].0@));
    } else {
        assert(has_key(r2, r1[0].0@));
        assert(has_key(r1, r2[0].0@));
        let j = choose|j: int| 0 <= j < r2.len() && r2[j].0@ == r1[0].0@;
        let i = choose|i: int| 0 <= i < r1.len() && r1[i].0@ == r2[0].0@;
        if j > 0 {
            assert(lex_lt(r2[0].0@, r2[j].0@));
            if i > 0 {
                lemma_lex_asymmetric(r1[0].0@, r1[i].0@);
            } else {
                lemma_lex_irreflexive(r1[0].0@);
            }
        }
        let t1 = r1.drop_first();
        let t2 = r2.drop_first();
        assert forall|a: int| 0 <= a < t1.len() implies has_key(t2, #[trigger] t1[a].0@) by {
            assert(t1[a] == r1[a + 1]);
            assert(has_key(r2, r1[a + 1].0@));
            let b = choose|b: int| 0 <= b < r2.len() && r2[b].0@ == r1[a + 1].0@;
            assert(lex_lt(r1[0].0@, r1[a + 1].0@));
            if b == 0 {
                lemma_lex_irreflexive(r1[0].0@);
            }
            assert(t2[b - 1] == r2[b]);
        }
        assert forall|b: int| 0 <= b < t2.len() implies has_key(t1, #[trigger] t2[b].0@) by {
            assert(t2[b] == r2[b + 1]);
            assert(has_key(r1, r2[b + 1].0@));
            let a = choose|a: int| 0 <= a < r1.len() && r1[a].0@ == r2[b + 1].0@;
            assert(lex_lt(r2[0].0@, r2[b + 1].0@));
            if a == 0 {
                lemma_lex_irreflexive(r2[0].0@);
            }
            assert(t1[a - 1] == r1[a]);
        }
        lemma_sorted_keys_unique(t1, t2);
        assert forall|i: int| 0 <= i < r1.len() implies #[trigger] r1[i].0@ == r2[i].0@ by {
            if i > 0 {
                assert(t1[i - 1] == r1[i]);
                assert(t2[i - 1] == r2[i]);
            }
        }
    }
}

/// Two listings of the same map hold the same keys and values, in the same order.
pub proof fn lemma_listing_unique(r1: Seq<(String, String)>, r2: Seq<(String, String)>, m: Map<Seq<char>, Seq<char>>)
    requires
        lists(r1, m),
        lists(r2, m),
    ensures
        r1.len() == r2.len(),
        forall|i: int| 0 <= i < r1.len() ==> #[trigger] r1[i].0@ == r2[i].0@ && r1[i].1@ == r2[i].1@,
{
    assert forall|i: int| 0 <= i < r1.len() implies has_key(r2, #[trigger] r1[i].0@) by {
        assert(m.contains_key(r1[i].0@));
    }
    assert forall|j: int| 0 <= j < r2.len() implies has_key(r1, #[trigger] r2[j].0@) by {
        assert(m.contains_key(r2[j].0@));
    }
    lemma_sorted_keys_unique(r1, r2);
    assert forall|i: int| 0 <= i < r1.len() implies #[trigger] r1[i].0@ == r2[i].0@ && r1[i].1@ == r2[i].1@ by {
        assert(r1[i].0@ == r2[i].0@);
        assert(m[r1[i].0@] == r1[i].1@);
        assert(m[r2[i].0@] == r2[i].1@);
    }
}

/// Relies on `itertools::Itertools::sorted_by_key`, which collects the items and
/// sorts them with `slice::sort_by_key`: the result holds the same items, in
/// ascending order of key. `String` orders by bytes, which for UTF-8 is the
/// order of the characters.
#[verifier::external_body]
fn sort_by_name(entries: Vec<(String, String)>) -> (r: Vec<(String, String)>)
    ensures
        r@.to_multiset() == entries@.to_multiset(),
        forall|i: int, j: int| 0 <= i < j < r@.len() ==> !lex_lt(#[trigger] r@[j].0@, #[trigger] r@[i].0@),
{
    entries.into_iter().sorted_by_key(|e| e.0.clone()).collect()
}

/// The key/value store of a session.
pub struct State {
    vars: Vec<(String, String)>,
}

impl View for State {
    type V = Map<Seq<char>, Seq<char>>;

    closed spec fn view(&self) -> Map<Seq<char>, Seq<char>> {
        entries_map(self.vars@)
    }
}

impl State {
    /// Every key has one entry.
    pub closed spec fn wf(&self) -> bool {
        distinct_keys(self.vars@)
    }

    /// An empty store.
    pub fn new() -> (r: Self)
        ensures
            r.wf(),
            r@ == Map::<Seq<char>, Seq<char>>::empty(),
    {
        State { vars: Vec::new() }
    }

    fn find(&self, key: &String) -> (r: Option<usize>)
        requires
            self.wf(),
        ensures
            match r {
                Some(i) => i < self.vars.len() && self.vars@[i as int].0@ == key@,
                None => !self@.contains_key(key@),
            },
    {
        proof {
            lemma_entries_map(self.vars@);
        }
        let mut i: usize = 0;
        while i < self.vars.len()
            invariant
                i <= self.vars.len(),
                forall|j: int| 0 <= j < i ==> self.vars@[j].0@ != key@,
            decreases self.vars.len() - i,
        {
            if self.vars[i].0 == *key {
                return Some(i);
            }
            i = i + 1;
        }
        None
    }

    /// The value of `key`, if it is set.
    pub fn get(&self, key: &String) -> (r: Option<String>)
        requires
            self.wf(),
        ensures
            match r {
                Some(v) => self@.contains_key(key@) && v@ == self@[key@],
                None => !self@.contains_key(key@),
            },
    {
        proof {
            lemma_entries_map(self.vars@);
        }
        match self.find(key) {
            Some(i) => Some(self.vars[i].1.clone()),
            None => None,
        }
    }

    /// Sets `key` to `value`, replacing any value it had.
    pub fn set(&mut self, key: String, value: String)
        requires
            old(self).wf(),
        ensures
            final(self).wf(),
            final(self)@ == old(self)@.insert(key@, value@),
    {
        proof {
            lemma_entries_map(self.vars@);
        }
        match self.find(&key) {
            Some(i) => {
                proof {
                    lemma_entries_map_update(self.vars@, i as int, (key, value));
                }
                self.vars.set(i, (key, value));
            },
            None => {
                proof {
                    assert(self.vars@.push((key, value)).drop_last() == self.vars@);
                }
                self.vars.push((key, value));
            },
        }
    }

    /// Removes `key`; tells whether it was set.
    pub fn delete(&mut self, key: &String) -> (r: bool)
        requires
            old(self).wf(),
        ensures
            final(self).wf(),
            r == old(self)@.contains_key(key@),
            final(self)@ == old(self)@.remove(key@),
    {
        proof {
            lemma_entries_map(self.vars@);
        }
        match self.find(key) {
            Some(i) => {
                proof {
                    lemma_entries_map_remove(self.vars@, i as int);
                }
                self.vars.remove(i);
                true
            },
            None => {
                assert(self@.remove(key@) =~= self@);
                false
            },
        }
    }

    /// The entries of the store, each once, in ascending order of key.
    pub fn list(&self) -> (r: Vec<(String, String)>)
        requires
            self.wf(),
        ensures
            lists(r@, self@),
    {
        let mut copy: Vec<(String, String)> = Vec::new();
        let mut i: usize = 0;
        while i < self.vars.len()
            invariant
                i <= self.vars.len(),
                copy@ == self.vars@.subrange(0, i as int),
            decreases self.vars.len() - i,
        {
            let k = self.vars[i].0.clone();
            let v = self.vars[i].1.clone();
            copy.push((k, v));
            i = i + 1;
            assert(copy@ =~= self.vars@.subrange(0, i as int));
        }
        assert(copy@ =~= self.vars@);
        let r = sort_by_name(copy);
        proof {
            broadcast use vstd::seq_lib::group_to_multiset_ensures;

            let s = self.vars@;
            lemma_entries_map(s);
            assert(s.no_duplicates());
            s.lemma_multiset_has_no_duplicates();
            r@.lemma_multiset_has_no_duplicates_conv();
            assert forall|i: int| 0 <= i < r.len() implies s.contains(#[trigger] r@[i]) by {
                assert(r@.to_multiset().count(r@[i]) > 0);
            }
            assert forall|i: int, j: int| 0 <= i < j < r.len() implies lex_lt(r@[i].0@, r@[j].0@) by {
                let a = choose|a: int| 0 <= a < s.len() && s[a] == r@[i];
                let b = choose|b: int| 0 <= b < s.len() && s[b] == r@[j];
                assert(r@[i] != r@[j]);
                assert(a != b);
                lemma_lex_total(r@[i].0@, r@[j].0@);
            }
            assert forall|i: int| 0 <= i < r.len() implies self@.contains_key(#[trigger] r@[i].0@) && self@[r@[i].0@] == r@[i].1@ by {
                let a = choose|a: int| 0 <= a < s.len() && s[a] == r@[i];
                assert(s[a].0@ == r@[i].0@);
            }
            assert forall|k: Seq<char>| #[trigger] self@.contains_key(k) implies has_key(r@, k) by {
                let j = choose|j: int| 0 <= j < s.len() && s[j].0@ == k;
                assert(s.to_multiset().count(s[j]) > 0);
                assert(r@.contains(s[j]));
            }
            assert(r@.len() == r@.to_multiset().len());
            assert(s.len() == s.to_multiset().len());
        }
        r
    }

    /// Number of keys set.
    pub fn len(&self) -> (r: usize)
        requires
            self.wf(),
        ensures
            r == self@.len(),
    {
        proof {
            lemma_entries_map(self.vars@);
        }
        self.vars.len()
    }
}

} // verus!
