//! A small association map from string names to values.
//!
//! The document format keys sources and tiles by name, and the atlas build
//! walks the declared sources in declaration order, so the map keeps its
//! entries as a vector of pairs: lookups go by name, iteration goes by
//! position, and the order never depends on a hash seed.
use vstd::prelude::*;
use vstd::map::*;

verus! {

/// Compare two string slices character by character.
pub fn str_eq(a: &str, b: &str) -> (r: bool)
    ensures
        r == (a@ == b@),
{
    let n = a.unicode_len();
    let m = b.unicode_len();
    if n != m {
        return false;
    }
    let mut i: usize = 0;
    while i < n
        invariant
            i <= n,
            forall|j: int| 0 <= j < i ==> a@[j] == b@[j],
        decreases n - i,
    {
        if a.get_char(i) != b.get_char(i) {
            return false;
        }
        i = i + 1;
    }
    proof {
        assert(a@ =~= b@);
    }
    true
}

/// The mathematical map held by a sequence of (name, value) pairs; a later
/// pair with the same name wins.
pub open spec fn map_of_pairs<V>(s: Seq<(String, V)>) -> Map<Seq<char>, V>
    decreases s.len(),
{
    if s.len() == 0 {
        Map::empty()
    } else {
        map_of_pairs(s.drop_last()).insert(s.last().0@, s.last().1)
    }
}

/// Whether some pair of `s` carries the name `k`.
pub open spec fn key_in<V>(s: Seq<(String, V)>, k: Seq<char>) -> bool {
    exists|i: int| 0 <= i < s.len() && s[i].0@ == k
}

/// The domain of `map_of_pairs` is exactly the set of names in the pairs.
pub proof fn lemma_map_domain<V>(s: Seq<(String, V)>, k: Seq<char>)
    ensures
        map_of_pairs(s).contains_key(k) <==> key_in(s, k),
    decreases s.len(),
{
    if s.len() > 0 {
        lemma_map_domain(s.drop_last(), k);
        if s.last().0@ != k && key_in(s, k) {
            let i = choose|i: int| 0 <= i < s.len() && s[i].0@ == k;
            assert(s.drop_last()[i] == s[i]);
        }
    }
}

/// Under unique names, each pair's value is the map's value at its name.
pub proof fn lemma_map_index<V>(s: Seq<(String, V)>, i: int)
    requires
        0 <= i < s.len(),
        forall|p: int, q: int| 0 <= p < q < s.len() ==> s[p].0@ != s[q].0@,
    ensures
        map_of_pairs(s).contains_key(s[i].0@),
        map_of_pairs(s)[s[i].0@] == s[i].1,
    decreases s.len(),
{
    lemma_map_domain(s, s[i].0@);
    if i < s.len() - 1 {
        assert(s.drop_last()[i] == s[i]);
        lemma_map_index(s.drop_last(), i);
    }
}

/// Replacing the value of the pair at `i` updates the map at that name.
pub proof fn lemma_map_update<V>(s: Seq<(String, V)>, s2: Seq<(String, V)>, i: int, v: V)
    requires
        0 <= i < s.len(),
        forall|p: int, q: int| 0 <= p < q < s.len() ==> s[p].0@ != s[q].0@,
        s2 =~= s.update(i, (s[i].0, v)),
    ensures
        map_of_pairs(s2) == map_of_pairs(s).insert(s[i].0@, v),
    decreases s.len(),
{
    let k = s[i].0@;
    if i == s.len() - 1 {
        assert(s2.drop_last() =~= s.drop_last());
        assert_maps_equal!(
            map_of_pairs(s.drop_last()).insert(k, v),
            map_of_pairs(s.drop_last()).insert(k, s[i].1).insert(k, v)
        );
    } else {
        assert(s2.drop_last() =~= s.drop_last().update(i, (s[i].0, v)));
        assert(s.drop_last()[i] == s[i]);
        lemma_map_update(s.drop_last(), s2.drop_last(), i, v);
        let lk = s.last().0@;
        assert(lk != k);
        assert_maps_equal!(
            map_of_pairs(s.drop_last()).insert(k, v).insert(lk, s.last().1),
            map_of_pairs(s.drop_last()).insert(lk, s.last().1).insert(k, v)
        );
    }
}

/// The map's value at a contained name is the value of one of the pairs
/// carrying that name.
pub proof fn lemma_map_value_is_some_pair<V>(s: Seq<(String, V)>, k: Seq<char>)
    requires
        map_of_pairs(s).contains_key(k),
    ensures
        exists|i: int| 0 <= i < s.len() && s[i].0@ == k && map_of_pairs(s)[k] == s[i].1,
    decreases s.len(),
{
    if s.len() > 0 {
        if s.last().0@ == k {
            assert(s[s.len() - 1].0@ == k && map_of_pairs(s)[k] == s[s.len() - 1].1);
        } else {
            lemma_map_domain(s.drop_last(), k);
            lemma_map_domain(s, k);
            lemma_map_value_is_some_pair(s.drop_last(), k);
            let i = choose|i: int|
                0 <= i < s.drop_last().len() && s.drop_last()[i].0@ == k && map_of_pairs(
                    s.drop_last(),
                )[k] == s.drop_last()[i].1;
            assert(s[i].0@ == k && map_of_pairs(s)[k] == s[i].1);
        }
    }
}

/// An association map from names to values, in declaration order.
pub struct Dict<V> {
    pub pairs: Vec<(String, V)>,
}

impl<V> Dict<V> {
    /// The names, in declaration order.
    pub open spec fn keys(&self) -> Seq<Seq<char>> {
        self.pairs@.map_values(|p: (String, V)| p.0@)
    }

    /// The values, in declaration order.
    pub open spec fn vals(&self) -> Seq<V> {
        self.pairs@.map_values(|p: (String, V)| p.1)
    }

    /// The map from names to values.
    pub open spec fn contents(&self) -> Map<Seq<char>, V> {
        map_of_pairs(self.pairs@)
    }

    /// Well-formed: no name occurs twice.
    pub open spec fn wf(&self) -> bool {
        forall|i: int, j: int|
            0 <= i < j < self.pairs@.len() ==> self.pairs@[i].0@ != self.pairs@[j].0@
    }

    pub open spec fn spec_len(&self) -> nat {
        self.pairs@.len()
    }

    /// The name and value sequences read the pairs off positionally.
    pub proof fn lemma_views(&self)
        ensures
            self.keys().len() == self.spec_len(),
            self.vals().len() == self.spec_len(),
            forall|i: int|
                0 <= i < self.spec_len() ==> self.keys()[i] == self.pairs@[i].0@ && self.vals()[i]
                    == self.pairs@[i].1,
    {
    }

    /// Each position's value is the map's value at that position's name.
    pub proof fn lemma_position(&self, i: int)
        requires
            self.wf(),
            0 <= i < self.spec_len(),
        ensures
            self.contents().contains_key(self.keys()[i]),
            self.contents()[self.keys()[i]] == self.vals()[i],
    {
        self.lemma_views();
        lemma_map_index(self.pairs@, i);
    }

    /// A name is in the map exactly when some position carries it.
    pub proof fn lemma_domain(&self, k: Seq<char>)
        ensures
            self.contents().contains_key(k) <==> exists|i: int|
                0 <= i < self.spec_len() && self.keys()[i] == k,
    {
        self.lemma_views();
        lemma_map_domain(self.pairs@, k);
        if key_in(self.pairs@, k) {
            let i = choose|i: int| 0 <= i < self.pairs@.len() && self.pairs@[i].0@ == k;
            assert(self.keys()[i] == k);
        }
        if exists|i: int| 0 <= i < self.spec_len() && self.keys()[i] == k {
            let i = choose|i: int| 0 <= i < self.spec_len() && self.keys()[i] == k;
            assert(self.pairs@[i].0@ == k);
        }
    }

    pub fn new() -> (r: Self)
        ensures
            r.wf(),
            r.contents() == Map::<Seq<char>, V>::empty(),
            r.keys() == Seq::<Seq<char>>::empty(),
            r.spec_len() == 0,
    {
        let r = Dict { pairs: Vec::new() };
        proof {
            assert(r.keys() =~= Seq::<Seq<char>>::empty());
        }
        r
    }

    pub fn len(&self) -> (r: usize)
        ensures
            r == self.spec_len(),
    {
        self.pairs.len()
    }

    /// Position of `name` among the pairs, if any.
    fn position_of(&self, name: &str) -> (r: Option<usize>)
        ensures
            match r {
                Some(i) => i < self.spec_len() && self.keys()[i as int] == name@,
                None => forall|i: int| 0 <= i < self.spec_len() ==> self.keys()[i] != name@,
            },
    {
        let n = self.pairs.len();
        let mut i: usize = 0;
        while i < n
            invariant
                i <= n,
                forall|j: int| 0 <= j < i ==> self.keys()[j] != name@,
            decreases n - i,
        {
            if str_eq(self.pairs[i].0.as_str(), name) {
                return Some(i);
            }
            i = i + 1;
        }
        None
    }

    /// Look the name up.
    pub fn get<'a>(&'a self, name: &str) -> (r: Option<&'a V>)
        requires
            self.wf(),
        ensures
            match r {
                Some(v) => self.contents().contains_key(name@) && *v == self.contents()[name@],
                None => !self.contents().contains_key(name@),
            },
    {
        proof {
            self.lemma_domain(name@);
        }
        match self.position_of(name) {
            Some(i) => {
                proof {
                    self.lemma_position(i as int);
                }
                Some(&self.pairs[i].1)
            },
            None => None,
        }
    }

    pub fn contains_key(&self, name: &str) -> (r: bool)
        requires
            self.wf(),
        ensures
            r == self.contents().contains_key(name@),
    {
        self.get(name).is_some()
    }

    /// Insert or replace; a replaced name keeps its position, a new name
    /// goes to the end.
    pub fn insert(&mut self, name: String, v: V)
        requires
            old(self).wf(),
        ensures
            final(self).wf(),
            final(self).contents() == old(self).contents().insert(name@, v),
            old(self).contents().contains_key(name@) ==> final(self).keys() == old(self).keys()
                && exists|i: int|
                0 <= i < old(self).spec_len() && old(self).keys()[i] == name@ && final(self).vals()
                    == old(self).vals().update(i, v),
            !old(self).contents().contains_key(name@) ==> final(self).keys() == old(
                self,
            ).keys().push(name@) && final(self).vals() == old(self).vals().push(v),
    {
        proof {
            self.lemma_domain(name@);
        }
        match self.position_of(name.as_str()) {
            Some(i) => {
                let pair = self.pairs.remove(i);
                self.pairs.insert(i, (pair.0, v));
                proof {
                    old(self).lemma_views();
                    assert(self.pairs@ =~= old(self).pairs@.update(i as int, (
                        old(self).pairs@[i as int].0,
                        v,
                    )));
                    lemma_map_update(old(self).pairs@, self.pairs@, i as int, v);
                    assert(forall|p: int|
                        0 <= p < self.pairs@.len() ==> self.pairs@[p].0 == old(self).pairs@[p].0);
                    assert(self.keys() =~= old(self).keys());
                }
            },
            None => {
                self.pairs.push((name, v));
                proof {
                    old(self).lemma_views();
                    assert forall|p: int|
                        0 <= p < old(self).pairs@.len() implies old(self).pairs@[p].0@
                        != name@ by {
                        assert(old(self).keys()[p] != name@);
                    }
                    assert(self.pairs@.drop_last() =~= old(self).pairs@);
                    assert(forall|j: int|
                        0 <= j < old(self).pairs@.len() ==> self.pairs@[j]
                            == old(self).pairs@[j]);
                    assert(self.keys() =~= old(self).keys().push(name@));
                    assert(self.vals() =~= old(self).vals().push(v));
                }
            },
        }
    }

    /// The pair at a position, for iteration in declaration order.
    pub fn pair_at(&self, i: usize) -> (r: &(String, V))
        requires
            i < self.spec_len(),
        ensures
            r.0@ == self.keys()[i as int],
            r.1 == self.vals()[i as int],
    {
        &self.pairs[i]
    }
}

} // verus!
