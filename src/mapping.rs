//! A string-to-string mapping with unique keys, where a later insert of a key
//! replaces the earlier value.
use vstd::prelude::*;

verus! {

/// The map that a sequence of pairs stands for: each pair sets its key,
/// a later pair overriding an earlier one.
pub open spec fn pairs_map(s: Seq<(String, String)>) -> Map<Seq<char>, Seq<char>>
    decreases s.len(),
{
    if s.len() == 0 {
        Map::empty()
    } else {
        pairs_map(s.drop_last()).insert(s.last().0@, s.last().1@)
    }
}

/// No key occurs twice.
pub open spec fn keys_distinct(s: Seq<(String, String)>) -> bool {
    forall|i: int, j: int| 0 <= i < j < s.len() ==> #[trigger] s[i].0@ != #[trigger] s[j].0@
}

/// A key is mapped exactly when some pair holds it.
proof fn lemma_pairs_map_dom(s: Seq<(String, String)>, k: Seq<char>)
    ensures
        pairs_map(s).contains_key(k) <==> exists|i: int| 0 <= i < s.len() && s[i].0@ == k,
    decreases s.len(),
{
    if s.len() > 0 {
        lemma_pairs_map_dom(s.drop_last(), k);
        if pairs_map(s.drop_last()).contains_key(k) {
            let i = choose|i: int| 0 <= i < s.drop_last().len() && s.drop_last()[i].0@ == k;
            assert(s[i].0@ == k);
        }
        if exists|i: int| 0 <= i < s.len() && s[i].0@ == k {
            let i = choose|i: int| 0 <= i < s.len() && s[i].0@ == k;
            if i < s.len() - 1 {
                assert(s.drop_last()[i].0@ == k);
            }
        }
    }
}

/// With distinct keys, the pair that holds a key gives its value.
proof fn lemma_pairs_map_index(s: Seq<(String, String)>, i: int)
    requires
        keys_distinct(s),
        0 <= i < s.len(),
    ensures
        pairs_map(s).contains_key(s[i].0@),
        pairs_map(s)[s[i].0@] == s[i].1@,
    decreases s.len(),
{
    if i < s.len() - 1 {
        lemma_pairs_map_index(s.drop_last(), i);
        assert(s.drop_last()[i] == s[i]);
    }
}

/// With distinct keys, dropping the pair at `i` drops its key from the map.
proof fn lemma_pairs_map_remove(s: Seq<(String, String)>, i: int)
    requires
        keys_distinct(s),
        0 <= i < s.len(),
    ensures
        pairs_map(s.remove(i)) =~= pairs_map(s).remove(s[i].0@),
    decreases s.len(),
{
    let k = s[i].0@;
    if i == s.len() - 1 {
        assert(s.remove(i) =~= s.drop_last());
        lemma_pairs_map_dom(s.drop_last(), k);
        assert(!pairs_map(s.drop_last()).contains_key(k));
    } else {
        let t = s.drop_last();
        lemma_pairs_map_remove(t, i);
        assert(s.remove(i).drop_last() =~= t.remove(i));
        assert(s.remove(i).last() == s.last());
    }
}

/// With distinct keys, the map has one key per pair.
proof fn lemma_pairs_map_len(s: Seq<(String, String)>)
    requires
        keys_distinct(s),
    ensures
        pairs_map(s).dom().finite(),
        pairs_map(s).dom().len() == s.len(),
    decreases s.len(),
{
    if s.len() > 0 {
        let p = s.drop_last();
        assert(keys_distinct(p));
        lemma_pairs_map_len(p);
        lemma_pairs_map_dom(p, s.last().0@);
        if pairs_map(p).contains_key(s.last().0@) {
            let i = choose|i: int| 0 <= i < p.len() && p[i].0@ == s.last().0@;
            assert(s[i].0@ == s[s.len() - 1].0@);
        }
        assert(pairs_map(s).dom() =~= pairs_map(p).dom().insert(s.last().0@));
    }
}

/// A mapping from strings to strings whose keys are unique.
#[derive(Debug)]
pub struct Mapping {
    entries: Vec<(String, String)>,
}

impl View for Mapping {
    type V = Map<Seq<char>, Seq<char>>;

    closed spec fn view(&self) -> Map<Seq<char>, Seq<char>> {
        pairs_map(self.entries@)
    }
}

impl Mapping {
    /// Well-formed: no key is held twice.
    pub closed spec fn wf(&self) -> bool {
        keys_distinct(self.entries@)
    }

    /// An empty mapping.
    pub fn new() -> (r: Mapping)
        ensures
            r.wf(),
            r@ == Map::<Seq<char>, Seq<char>>::empty(),
    {
        Mapping { entries: Vec::new() }
    }

    /// Whether no key is mapped.
    pub fn is_empty(&self) -> (r: bool)
        requires
            self.wf(),
        ensures
            r == (self@ == Map::<Seq<char>, Seq<char>>::empty()),
    {
        let r = self.entries.len() == 0;
        proof {
            if !r {
                lemma_pairs_map_index(self.entries@, 0);
                assert(!(self@ =~= Map::<Seq<char>, Seq<char>>::empty()));
            } else {
                assert(self.entries@ =~= Seq::<(String, String)>::empty());
            }
        }
        r
    }

    /// The number of keys mapped.
    pub fn len(&self) -> (r: usize)
        requires
            self.wf(),
        ensures
            self@.dom().finite(),
            r == self@.dom().len(),
    {
        proof {
            lemma_pairs_map_len(self.entries@);
        }
        self.entries.len()
    }

    /// The value that `key` maps to, if any.
    pub fn get(&self, key: &str) -> (r: Option<&String>)
        requires
            self.wf(),
        ensures
            match r {
                Some(v) => self@.contains_key(key@) && self@[key@] == v@,
                None => !self@.contains_key(key@),
            },
    {
        let k = key.to_owned();
        let mut i: usize = 0;
        while i < self.entries.len()
            invariant
                self.wf(),
                k@ == key@,
                i <= self.entries.len(),
                forall|j: int| 0 <= j < i ==> self.entries@[j].0@ != key@,
            decreases self.entries.len() - i,
        {
            if self.entries[i].0 == k {
                proof {
                    lemma_pairs_map_index(self.entries@, i as int);
                }
                return Some(&self.entries[i].1);
            }
            i = i + 1;
        }
        proof {
            lemma_pairs_map_dom(self.entries@, key@);
        }
        None
    }

    /// The pairs held, each key once, in an order of no meaning.
    pub fn entries(&self) -> (r: &Vec<(String, String)>)
        requires
            self.wf(),
        ensures
            self@.dom().finite(),
            r.len() == self@.dom().len(),
            forall|i: int| 0 <= i < r.len() ==> #[trigger] self@.contains_key(r@[i].0@)
                && self@[r@[i].0@] == r@[i].1@,
            forall|i: int, j: int| 0 <= i < j < r.len() ==> #[trigger] r@[i].0@ != #[trigger] r@[j].0@,
    {
        proof {
            lemma_pairs_map_len(self.entries@);
            assert forall|i: int| 0 <= i < self.entries.len() implies #[trigger] self@.contains_key(
                self.entries@[i].0@,
            ) && self@[self.entries@[i].0@] == self.entries@[i].1@ by {
                lemma_pairs_map_index(self.entries@, i);
            }
        }
        &self.entries
    }

    /// Maps `key` to `value`, replacing any value that `key` had.
    pub fn insert(&mut self, key: String, value: String)
        requires
            old(self).wf(),
        ensures
            final(self).wf(),
            final(self)@ == old(self)@.insert(key@, value@),
    {
        let mut i: usize = 0;
        let n = self.entries.len();
        while i < n
            invariant
                n == self.entries.len(),
                self.entries@ == old(self).entries@,
                self.wf(),
                i <= n,
                forall|j: int| 0 <= j < i ==> self.entries@[j].0@ != key@,
            ensures
                self.entries@ == old(self).entries@,
                i <= n,
                forall|j: int| 0 <= j < i ==> self.entries@[j].0@ != key@,
                i < n ==> self.entries@[i as int].0@ == key@,
            decreases n - i,
        {
            if self.entries[i].0 == key {
                break;
            }
            i = i + 1;
        }
        let ghost s = self.entries@;
        if i < n {
            proof {
                lemma_pairs_map_remove(s, i as int);
            }
            self.entries.remove(i);
            assert(keys_distinct(s.remove(i as int)));
        }
        let ghost t = self.entries@;
        proof {
            lemma_pairs_map_dom(t, key@);
            lemma_pairs_map_dom(s, key@);
            if i >= n {
                assert(!pairs_map(s).contains_key(key@));
                assert(pairs_map(t) =~= pairs_map(s).remove(key@));
            }
            assert(pairs_map(t) =~= pairs_map(s).remove(key@));
            assert(forall|j: int| 0 <= j < t.len() ==> t[j].0@ != key@);
        }
        let ghost k = key@;
        let ghost v = value@;
        self.entries.push((key, value));
        proof {
            let u = self.entries@;
            assert(u.drop_last() =~= t);
            assert(u.last().0@ == k);
            assert(pairs_map(u) == pairs_map(t).insert(k, v));
            assert(pairs_map(u) =~= pairs_map(s).insert(k, v));
            assert(keys_distinct(u));
        }
    }
}

} // verus!
