//! A small map keyed by characters, kept as a vector of entries with unique
//! keys in insertion order. Colour schemes and style tables are such maps.
use vstd::prelude::*;

verus! {

/// The map that a sequence of entries denotes: later entries win.
pub open spec fn entries_map<V>(s: Seq<(char, V)>) -> Map<char, V>
    decreases s.len(),
{
    if s.len() == 0 {
        Map::empty()
    } else {
        entries_map(s.drop_last()).insert(s.last().0, s.last().1)
    }
}

/// No key occurs twice among the entries.
pub open spec fn unique_keys<V>(s: Seq<(char, V)>) -> bool {
    forall|i: int, j: int| 0 <= i < j < s.len() ==> s[i].0 != s[j].0
}

proof fn lemma_entries_map<V>(s: Seq<(char, V)>)
    requires
        unique_keys(s),
    ensures
        forall|c: char| entries_map(s).contains_key(c) <==> exists|i: int| 0 <= i < s.len() && s[i].0 == c,
        forall|i: int| 0 <= i < s.len() ==> #[trigger] entries_map(s)[s[i].0] == s[i].1,
    decreases s.len(),
{
    if s.len() > 0 {
        let t = s.drop_last();
        assert(unique_keys(t)) by {
            assert forall|a: int, b: int| 0 <= a < b < t.len() implies t[a].0 != t[b].0 by {
                assert(t[a] == s[a] && t[b] == s[b]);
            }
        }
        lemma_entries_map(t);
        assert(entries_map(s) == entries_map(t).insert(s.last().0, s.last().1));
        assert forall|c: char| entries_map(s).contains_key(c) <==> exists|i: int| 0 <= i < s.len() && s[i].0 == c by {
            if entries_map(t).contains_key(c) {
                let i = choose|i: int| 0 <= i < t.len() && t[i].0 == c;
                assert(t[i] == s[i]);
            }
            if exists|i: int| 0 <= i < s.len() && s[i].0 == c {
                let i = choose|i: int| 0 <= i < s.len() && s[i].0 == c;
                if i < t.len() {
                    assert(t[i].0 == c);
                }
            }
        }
        assert forall|i: int| 0 <= i < s.len() implies #[trigger] entries_map(s)[s[i].0] == s[i].1 by {
            if i < t.len() {
                assert(t[i] == s[i]);
                assert(s[i].0 != s[s.len() - 1].0);
                assert(entries_map(t)[t[i].0] == t[i].1);
            }
        }
    }
}

proof fn lemma_entries_map_push<V>(s: Seq<(char, V)>, e: (char, V))
    ensures
        entries_map(s.push(e)) == entries_map(s).insert(e.0, e.1),
{
    assert(s.push(e).drop_last() =~= s);
}

proof fn lemma_entries_map_update<V>(s: Seq<(char, V)>, i: int, v: V)
    requires
        unique_keys(s),
        0 <= i < s.len(),
    ensures
        entries_map(s.update(i, (s[i].0, v))) == entries_map(s).insert(s[i].0, v),
{
    let t = s.update(i, (s[i].0, v));
    assert(unique_keys(t)) by {
        assert forall|a: int, b: int| 0 <= a < b < t.len() implies t[a].0 != t[b].0 by {
            assert(t[a].0 == s[a].0 && t[b].0 == s[b].0);
        }
    }
    lemma_entries_map(s);
    lemma_entries_map(t);
    let m = entries_map(s).insert(s[i].0, v);
    assert forall|c: char| entries_map(t).contains_key(c) <==> m.contains_key(c) by {
        if exists|j: int| 0 <= j < t.len() && t[j].0 == c {
            let j = choose|j: int| 0 <= j < t.len() && t[j].0 == c;
            assert(s[j].0 == c);
        }
        if exists|j: int| 0 <= j < s.len() && s[j].0 == c {
            let j = choose|j: int| 0 <= j < s.len() && s[j].0 == c;
            assert(t[j].0 == c);
        }
    }
    assert forall|c: char| #[trigger] entries_map(t).contains_key(c) implies entries_map(t)[c] == m[c] by {
        let j = choose|j: int| 0 <= j < t.len() && t[j].0 == c;
        assert(entries_map(t)[t[j].0] == t[j].1);
        if j != i {
            assert(entries_map(s)[s[j].0] == s[j].1);
        }
    }
    assert(entries_map(t) =~= m);
}

/// A copy of `v` with the entry at `i` replaced by `e`.
fn replaced<V: Copy>(v: &Vec<(char, V)>, i: usize, e: (char, V)) -> (r: Vec<(char, V)>)
    requires
        i < v@.len(),
    ensures
        r@ == v@.update(i as int, e),
{
    let mut r: Vec<(char, V)> = Vec::new();
    let mut j: usize = 0;
    while j < v.len()
        invariant
            j <= v@.len(),
            i < v@.len(),
            r@ == v@.update(i as int, e).take(j as int),
        decreases v@.len() - j,
    {
        if j == i {
            r.push(e);
        } else {
            r.push(v[j]);
        }
        j = j + 1;
        assert(r@ =~= v@.update(i as int, e).take(j as int));
    }
    assert(r@ =~= v@.update(i as int, e));
    r
}

/// A copy of `v` with `e` added at the end.
fn pushed<V: Copy>(v: &Vec<(char, V)>, e: (char, V)) -> (r: Vec<(char, V)>)
    ensures
        r@ == v@.push(e),
{
    let mut r: Vec<(char, V)> = Vec::new();
    let mut j: usize = 0;
    while j < v.len()
        invariant
            j <= v@.len(),
            r@ == v@.take(j as int),
        decreases v@.len() - j,
    {
        r.push(v[j]);
        j = j + 1;
        assert(r@ =~= v@.take(j as int));
    }
    assert(v@.take(j as int) =~= v@);
    r.push(e);
    r
}

/// A map from characters to values, with unique keys kept in insertion order.
pub struct CharMap<V> {
    entries: Vec<(char, V)>,
}

impl<V> View for CharMap<V> {
    type V = Map<char, V>;

    closed spec fn view(&self) -> Map<char, V> {
        entries_map(self.entries@)
    }
}

impl<V> CharMap<V> {
    #[verifier::type_invariant]
    spec fn inv(&self) -> bool {
        unique_keys(self.entries@)
    }
}

impl<V: Copy> CharMap<V> {
    /// The empty map.
    pub fn new() -> (m: Self)
        ensures
            m@ == Map::<char, V>::empty(),
    {
        CharMap { entries: Vec::new() }
    }

    /// The number of keys.
    pub fn len(&self) -> (n: usize)
        ensures
            n == self@.dom().len(),
    {
        proof {
            use_type_invariant(self);
            self.lemma_keys();
        }
        self.entries.len()
    }

    proof fn lemma_keys(&self)
        requires
            unique_keys(self.entries@),
        ensures
            self.entries@.map_values(|e: (char, V)| e.0).no_duplicates(),
            self.entries@.map_values(|e: (char, V)| e.0).to_set() =~= self@.dom(),
            self@.dom().len() == self.entries@.len(),
            self@.dom().finite(),
    {
        let ks = self.entries@.map_values(|e: (char, V)| e.0);
        lemma_entries_map(self.entries@);
        assert forall|c: char| ks.contains(c) <==> self@.contains_key(c) by {
            if ks.contains(c) {
                let i = choose|i: int| 0 <= i < ks.len() && ks[i] == c;
                assert(self.entries@[i].0 == c);
            }
            if self@.contains_key(c) {
                let i = choose|i: int| 0 <= i < self.entries@.len() && self.entries@[i].0 == c;
                assert(ks[i] == c);
            }
        }
        assert(ks.no_duplicates());
        ks.unique_seq_to_set();
        vstd::seq_lib::seq_to_set_is_finite(ks);
        assert(ks.to_set() =~= self@.dom());
    }

    /// The index of the entry for `c`, if there is one.
    fn find(&self, c: char) -> (r: Option<usize>)
        ensures
            match r {
                Some(i) => i < self.entries@.len() && self.entries@[i as int].0 == c,
                None => !self@.contains_key(c),
            },
    {
        proof {
            use_type_invariant(self);
            lemma_entries_map(self.entries@);
        }
        let mut i: usize = 0;
        while i < self.entries.len()
            invariant
                i <= self.entries@.len(),
                forall|j: int| 0 <= j < i ==> self.entries@[j].0 != c,
            decreases self.entries@.len() - i,
        {
            if self.entries[i].0 == c {
                return Some(i);
            }
            i = i + 1;
        }
        None
    }

    /// The value for `c`, if `c` is a key.
    pub fn get(&self, c: char) -> (r: Option<V>)
        ensures
            r == if self@.contains_key(c) { Some(self@[c]) } else { None::<V> },
    {
        proof {
            use_type_invariant(self);
            lemma_entries_map(self.entries@);
        }
        match self.find(c) {
            Some(i) => Some(self.entries[i].1),
            None => None,
        }
    }

    /// Whether `c` is a key.
    pub fn contains_key(&self, c: char) -> (r: bool)
        ensures
            r == self@.contains_key(c),
    {
        proof {
            use_type_invariant(self);
            lemma_entries_map(self.entries@);
        }
        self.find(c).is_some()
    }

    /// Sets the value for `c`, replacing any earlier one.
    pub fn insert(&mut self, c: char, v: V)
        ensures
            final(self)@ == old(self)@.insert(c, v),
    {
        proof {
            use_type_invariant(&*self);
            lemma_entries_map(self.entries@);
        }
        match self.find(c) {
            Some(i) => {
                proof {
                    lemma_entries_map_update(self.entries@, i as int, v);
                }
                self.entries = replaced(&self.entries, i, (c, v));
            },
            None => {
                proof {
                    lemma_entries_map_push(self.entries@, (c, v));
                    assert forall|a: int, b: int|
                        0 <= a < b < self.entries@.len() + 1 implies #[trigger] self.entries@.push((c, v))[a].0
                        != #[trigger] self.entries@.push((c, v))[b].0 by {
                        if b == self.entries@.len() {
                            assert(self.entries@[a].0 != c);
                        }
                    }
                }
                self.entries = pushed(&self.entries, (c, v));
            },
        }
    }

    /// The keys, in insertion order.
    pub closed spec fn key_seq(&self) -> Seq<char> {
        self.entries@.map_values(|e: (char, V)| e.0)
    }

    /// The keys, in insertion order, each once.
    pub fn keys(&self) -> (r: Vec<char>)
        ensures
            r@ == self.key_seq(),
            r@.no_duplicates(),
            r@.to_set() == self@.dom(),
            r@.len() == self@.dom().len(),
    {
        proof {
            use_type_invariant(self);
            self.lemma_keys();
        }
        let mut r: Vec<char> = Vec::new();
        let mut i: usize = 0;
        while i < self.entries.len()
            invariant
                i <= self.entries@.len(),
                r@ == self.entries@.take(i as int).map_values(|e: (char, V)| e.0),
            decreases self.entries@.len() - i,
        {
            r.push(self.entries[i].0);
            i = i + 1;
            assert(r@ =~= self.entries@.take(i as int).map_values(|e: (char, V)| e.0));
        }
        assert(self.entries@.take(i as int) =~= self.entries@);
        r
    }

    /// A copy of the map.
    pub fn copy(&self) -> (r: Self)
        ensures
            r@ == self@,
    {
        let mut r = CharMap::new();
        r.extend(self);
        assert(Map::<char, V>::empty().union_prefer_right(self@) =~= self@);
        r
    }

    /// Adds every entry of `other`, whose values win over those already here.
    pub fn extend(&mut self, other: &CharMap<V>)
        ensures
            final(self)@ == old(self)@.union_prefer_right(other@),
    {
        let mut i: usize = 0;
        while i < other.entries.len()
            invariant
                i <= other.entries@.len(),
                self@ == old(self)@.union_prefer_right(entries_map(other.entries@.take(i as int))),
            decreases other.entries@.len() - i,
        {
            let e = other.entries[i];
            proof {
                let t = other.entries@.take(i as int);
                assert(other.entries@.take(i + 1) =~= t.push(e));
                lemma_entries_map_push(t, e);
                assert(old(self)@.union_prefer_right(entries_map(t)).insert(e.0, e.1) =~= old(
                    self,
                )@.union_prefer_right(entries_map(t).insert(e.0, e.1)));
            }
            self.insert(e.0, e.1);
            i = i + 1;
        }
        assert(other.entries@.take(i as int) =~= other.entries@);
    }
}

/// The right-biased union of two maps: `b` wins where both have a key.
pub fn merge<V: Copy>(a: &CharMap<V>, b: &CharMap<V>) -> (r: CharMap<V>)
    ensures
        r@ == a@.union_prefer_right(b@),
{
    let mut r = CharMap::new();
    r.extend(a);
    r.extend(b);
    assert(Map::<char, V>::empty().union_prefer_right(a@) =~= a@);
    r
}

/// Merging is right-biased: every key of `b` takes its value from `b`, a key
/// only in `a` keeps its value from `a`, and merging a map with itself gives
/// that map back.
pub proof fn merge_is_right_biased<V>(a: Map<char, V>, b: Map<char, V>)
    ensures
        forall|k: char| b.contains_key(k) ==> #[trigger] a.union_prefer_right(b)[k] == b[k],
        forall|k: char|
            a.contains_key(k) && !b.contains_key(k) ==> #[trigger] a.union_prefer_right(b)[k] == a[k],
        a.union_prefer_right(b).dom() == a.dom().union(b.dom()),
        a.union_prefer_right(a) == a,
{
    assert(a.union_prefer_right(a) =~= a);
}

} // verus!
