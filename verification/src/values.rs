//! The values that a user gave to a template's placeholders, by name.

use vstd::prelude::*;
use crate::text::{chars_of, chars_eq};

verus! {

/// The map that a list of (name, value) entries describes: a later entry for a name
/// replaces an earlier one.
pub open spec fn map_of(s: Seq<(Vec<char>, Vec<char>)>) -> Map<Seq<char>, Seq<char>>
    decreases s.len(),
{
    if s.len() == 0 {
        Map::empty()
    } else {
        map_of(s.drop_last()).insert(s.last().0@, s.last().1@)
    }
}

/// Named values for placeholders.
#[derive(Debug)]
pub struct Values {
    entries: Vec<(Vec<char>, Vec<char>)>,
}

impl View for Values {
    type V = Map<Seq<char>, Seq<char>>;

    closed spec fn view(&self) -> Map<Seq<char>, Seq<char>> {
        map_of(self.entries@)
    }
}

/// The value that `m` holds for `k`, or the empty sequence where it holds none.
pub open spec fn value_or_empty(m: Map<Seq<char>, Seq<char>>, k: Seq<char>) -> Seq<char> {
    if m.contains_key(k) {
        m[k]
    } else {
        Seq::empty()
    }
}

proof fn lemma_map_of_absent(s: Seq<(Vec<char>, Vec<char>)>, k: Seq<char>)
    requires
        forall|l: int| 0 <= l < s.len() ==> (#[trigger] s[l]).0@ != k,
    ensures
        !map_of(s).contains_key(k),
    decreases s.len(),
{
    if s.len() > 0 {
        assert(s.last() == s[s.len() - 1]);
        lemma_map_of_absent(s.drop_last(), k);
    }
}

proof fn lemma_map_of_last(s: Seq<(Vec<char>, Vec<char>)>, k: Seq<char>, j: int)
    requires
        0 <= j < s.len(),
        s[j].0@ == k,
        forall|l: int| j < l < s.len() ==> (#[trigger] s[l]).0@ != k,
    ensures
        map_of(s).contains_key(k),
        map_of(s)[k] == s[j].1@,
    decreases s.len(),
{
    if j < s.len() - 1 {
        assert(s.last() == s[s.len() - 1]);
        assert forall|l: int| j < l < s.drop_last().len() implies (#[trigger] s.drop_last()[l]).0@
            != k by {
            assert(s.drop_last()[l] == s[l]);
        }
        lemma_map_of_last(s.drop_last(), k, j);
    }
}

proof fn lemma_map_of_has(s: Seq<(Vec<char>, Vec<char>)>, j: int)
    requires
        0 <= j < s.len(),
    ensures
        map_of(s).contains_key(s[j].0@),
    decreases s.len(),
{
    if j < s.len() - 1 {
        assert(s.drop_last()[j] == s[j]);
        lemma_map_of_has(s.drop_last(), j);
    }
}

proof fn lemma_map_of_dom(s: Seq<(Vec<char>, Vec<char>)>, k: Seq<char>)
    requires
        map_of(s).contains_key(k),
    ensures
        exists|j: int| 0 <= j < s.len() && (#[trigger] s[j]).0@ == k,
    decreases s.len(),
{
    if s.last().0@ != k {
        lemma_map_of_dom(s.drop_last(), k);
        let j = choose|j: int| 0 <= j < s.drop_last().len() && (#[trigger] s.drop_last()[j]).0@ == k;
        assert(s[j] == s.drop_last()[j]);
    } else {
        assert(s[s.len() - 1] == s.last());
    }
}

impl Values {
    /// Whether both hold the same values for the same names, whatever the order in which
    /// they were given.
    pub fn same_as(&self, other: &Values) -> (r: bool)
        ensures
            r == (self@ == other@),
    {
        let n = self.entries.len();
        let mut i: usize = 0;
        while i < n
            invariant
                n == self.entries@.len(),
                i <= n,
                forall|j: int|
                    0 <= j < i ==> other@.contains_key(#[trigger] self.entries@[j].0@) && other@[self.entries@[j].0@]
                        == self@[self.entries@[j].0@],
            decreases n - i,
        {
            proof {
                lemma_map_of_has(self.entries@, i as int);
            }
            let k = &self.entries[i].0;
            let mine = self.lookup(k);
            let theirs = other.lookup(k);
            match (mine, theirs) {
                (Some(a), Some(b)) => {
                    if !chars_eq(a, b) {
                        return false;
                    }
                },
                _ => {
                    return false;
                },
            }
            i = i + 1;
        }
        let m = other.entries.len();
        let mut i: usize = 0;
        while i < m
            invariant
                m == other.entries@.len(),
                i <= m,
                forall|j: int| 0 <= j < i ==> self@.contains_key(#[trigger] other.entries@[j].0@),
            decreases m - i,
        {
            proof {
                lemma_map_of_has(other.entries@, i as int);
            }
            let k = &other.entries[i].0;
            if self.lookup(k).is_none() {
                return false;
            }
            i = i + 1;
        }
        proof {
            assert forall|k: Seq<char>| #[trigger] self@.dom().contains(k) implies other@.dom().contains(k)
                && other@[k] == self@[k] by {
                lemma_map_of_dom(self.entries@, k);
                let j = choose|j: int| 0 <= j < self.entries@.len() && (#[trigger] self.entries@[j]).0@ == k;
            }
            assert forall|k: Seq<char>| #[trigger] other@.dom().contains(k) implies self@.dom().contains(k) by {
                lemma_map_of_dom(other.entries@, k);
                let j = choose|j: int| 0 <= j < other.entries@.len() && (#[trigger] other.entries@[j]).0@ == k;
            }
            assert(self@.dom() =~= other@.dom());
            assert(self@ =~= other@);
        }
        true
    }

    /// No values at all.
    pub fn new() -> (r: Values)
        ensures
            r@ == Map::<Seq<char>, Seq<char>>::empty(),
    {
        Values { entries: Vec::new() }
    }

    /// Gives `key` the value `value`, in place of any value it had.
    pub fn insert(&mut self, key: String, value: String)
        ensures
            final(self)@ == old(self)@.insert(key@, value@),
    {
        let k = chars_of(key.as_str());
        let v = chars_of(value.as_str());
        let ghost e0 = self.entries@;
        self.entries.push((k, v));
        assert(self.entries@.drop_last() =~= e0);
    }

    /// The value of `key`, if it has one.
    pub fn lookup(&self, key: &Vec<char>) -> (r: Option<&Vec<char>>)
        ensures
            match r {
                Some(v) => self@.contains_key(key@) && self@[key@] == v@,
                None => !self@.contains_key(key@),
            },
    {
        let mut i = self.entries.len();
        while i > 0
            invariant
                i <= self.entries@.len(),
                forall|l: int| i <= l < self.entries@.len() ==> (#[trigger] self.entries@[l]).0@
                    != key@,
            decreases i,
        {
            if chars_eq(&self.entries[i - 1].0, key) {
                proof {
                    lemma_map_of_last(self.entries@, key@, i - 1);
                }
                return Some(&self.entries[i - 1].1);
            }
            i = i - 1;
        }
        proof {
            lemma_map_of_absent(self.entries@, key@);
        }
        None
    }

    /// The value of `key`, if it has one.
    pub fn get(&self, key: &str) -> (r: Option<String>)
        ensures
            match r {
                Some(v) => self@.contains_key(key@) && self@[key@] == v@,
                None => !self@.contains_key(key@),
            },
    {
        let k = chars_of(key);
        match self.lookup(&k) {
            Some(v) => Some(crate::text::string_of(v)),
            None => None,
        }
    }

    /// The (name, value) pairs of these values, in the order they were given; giving each
    /// pair, in order, to a fresh `Values` rebuilds these values.
    pub fn pairs(&self) -> (r: Vec<(String, String)>)
        ensures
            pairs_map(r@) == self@,
    {
        let mut r: Vec<(String, String)> = Vec::new();
        let n = self.entries.len();
        let mut i: usize = 0;
        while i < n
            invariant
                n == self.entries@.len(),
                i <= n,
                r@.len() == i,
                forall|l: int|
                    0 <= l < i ==> (#[trigger] r@[l]).0@ == self.entries@[l].0@ && r@[l].1@
                        == self.entries@[l].1@,
            decreases n - i,
        {
            let k = crate::text::string_of(&self.entries[i].0);
            let v = crate::text::string_of(&self.entries[i].1);
            r.push((k, v));
            i = i + 1;
        }
        proof {
            lemma_pairs_map_same(r@, self.entries@);
        }
        r
    }

    /// The value of `key`, or the empty sequence where it has none.
    pub fn value_or_empty(&self, key: &Vec<char>) -> (r: Vec<char>)
        ensures
            r@ == value_or_empty(self@, key@),
    {
        match self.lookup(key) {
            Some(v) => v.clone(),
            None => Vec::new(),
        }
    }
}

impl Clone for Values {
    fn clone(&self) -> (r: Values)
        ensures
            r@ == self@,
    {
        let mut entries: Vec<(Vec<char>, Vec<char>)> = Vec::new();
        let n = self.entries.len();
        let mut i: usize = 0;
        while i < n
            invariant
                n == self.entries@.len(),
                i <= n,
                entries@.len() == i,
                forall|l: int|
                    0 <= l < i ==> (#[trigger] entries@[l]).0@ == self.entries@[l].0@
                        && entries@[l].1@ == self.entries@[l].1@,
            decreases n - i,
        {
            let k = self.entries[i].0.clone();
            let v = self.entries[i].1.clone();
            entries.push((k, v));
            i = i + 1;
        }
        proof {
            lemma_map_of_same(entries@, self.entries@);
        }
        Values { entries }
    }
}

/// The map that a list of (name, value) string pairs describes: a later pair for a name
/// replaces an earlier one.
pub open spec fn pairs_map(s: Seq<(String, String)>) -> Map<Seq<char>, Seq<char>>
    decreases s.len(),
{
    if s.len() == 0 {
        Map::empty()
    } else {
        pairs_map(s.drop_last()).insert(s.last().0@, s.last().1@)
    }
}

proof fn lemma_pairs_map_same(a: Seq<(String, String)>, b: Seq<(Vec<char>, Vec<char>)>)
    requires
        a.len() == b.len(),
        forall|l: int|
            0 <= l < a.len() ==> (#[trigger] a[l]).0@ == b[l].0@ && a[l].1@ == b[l].1@,
    ensures
        pairs_map(a) == map_of(b),
    decreases a.len(),
{
    if a.len() > 0 {
        assert(a.last() == a[a.len() - 1]);
        assert(b.last() == b[b.len() - 1]);
        assert forall|l: int| 0 <= l < a.drop_last().len() implies (#[trigger] a.drop_last()[l]).0@
            == b.drop_last()[l].0@ && a.drop_last()[l].1@ == b.drop_last()[l].1@ by {
            assert(a.drop_last()[l] == a[l]);
            assert(b.drop_last()[l] == b[l]);
        }
        lemma_pairs_map_same(a.drop_last(), b.drop_last());
    }
}

proof fn lemma_map_of_same(a: Seq<(Vec<char>, Vec<char>)>, b: Seq<(Vec<char>, Vec<char>)>)
    requires
        a.len() == b.len(),
        forall|l: int|
            0 <= l < a.len() ==> (#[trigger] a[l]).0@ == b[l].0@ && a[l].1@ == b[l].1@,
    ensures
        map_of(a) == map_of(b),
    decreases a.len(),
{
    if a.len() > 0 {
        assert(a.last() == a[a.len() - 1]);
        assert(b.last() == b[b.len() - 1]);
        assert forall|l: int| 0 <= l < a.drop_last().len() implies (#[trigger] a.drop_last()[l]).0@
            == b.drop_last()[l].0@ && a.drop_last()[l].1@ == b.drop_last()[l].1@ by {
            assert(a.drop_last()[l] == a[l]);
            assert(b.drop_last()[l] == b[l]);
        }
        lemma_map_of_same(a.drop_last(), b.drop_last());
    }
}

impl PartialEq for Values {
    fn eq(&self, other: &Values) -> (r: bool) {
        self.same_as(other)
    }
}

impl vstd::std_specs::cmp::PartialEqSpecImpl for Values {
    open spec fn obeys_eq_spec() -> bool {
        true
    }

    open spec fn eq_spec(&self, other: &Values) -> bool {
        self@ == other@
    }
}

} // verus!
