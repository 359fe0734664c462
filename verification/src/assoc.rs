use vstd::prelude::*;
use vstd::map::*;

verus! {

/// Whether no key occurs twice in a sequence of pairs.
pub open spec fn distinct_keys<T>(s: Seq<(i64, T)>) -> bool {
    forall|i: int, j: int| 0 <= i < j < s.len() ==> s[i].0 != s[j].0
}

/// The map a sequence of pairs stands for; on a duplicate key the later pair
/// wins.
pub open spec fn as_map<T>(s: Seq<(i64, T)>) -> Map<i64, T>
    decreases s.len(),
{
    if s.len() == 0 {
        Map::empty()
    } else {
        as_map(s.drop_last()).insert(s.last().0, s.last().1)
    }
}

/// A key is in the map exactly when some pair carries it.
pub proof fn lemma_as_map_contains<T>(s: Seq<(i64, T)>, k: i64)
    ensures
        as_map(s).contains_key(k) <==> (exists|i: int| 0 <= i < s.len() && s[i].0 == k),
    decreases s.len(),
{
    if s.len() > 0 {
        lemma_as_map_contains(s.drop_last(), k);
        if s.last().0 == k {
            assert(s[s.len() - 1].0 == k);
        } else if as_map(s).contains_key(k) {
            let i = choose|i: int| 0 <= i < s.drop_last().len() && s.drop_last()[i].0 == k;
            assert(s[i].0 == k);
        } else if exists|i: int| 0 <= i < s.len() && s[i].0 == k {
            let i = choose|i: int| 0 <= i < s.len() && s[i].0 == k;
            assert(s.drop_last()[i].0 == k);
        }
    }
}

/// With distinct keys, each pair is in the map with its own value.
pub proof fn lemma_as_map_at<T>(s: Seq<(i64, T)>, i: int)
    requires
        distinct_keys(s),
        0 <= i < s.len(),
    ensures
        as_map(s).contains_key(s[i].0),
        as_map(s)[s[i].0] == s[i].1,
    decreases s.len(),
{
    if i == s.len() - 1 {
    } else {
        assert(distinct_keys(s.drop_last())) by {
            assert(forall|a: int, b: int|
                0 <= a < b < s.drop_last().len() ==> s.drop_last()[a].0 != s.drop_last()[b].0);
        }
        lemma_as_map_at(s.drop_last(), i);
        assert(s.drop_last()[i] == s[i]);
        assert(s.last().0 != s[i].0);
    }
}

/// Replacing the pair that carries a key updates that key alone.
proof fn lemma_as_map_update<T>(s: Seq<(i64, T)>, i: int, v: T)
    requires
        distinct_keys(s),
        0 <= i < s.len(),
    ensures
        as_map(s.update(i, (s[i].0, v))) == as_map(s).insert(s[i].0, v),
        distinct_keys(s.update(i, (s[i].0, v))),
    decreases s.len(),
{
    let k = s[i].0;
    let s2 = s.update(i, (k, v));
    assert(distinct_keys(s2)) by {
        assert(forall|a: int| 0 <= a < s.len() ==> s2[a].0 == s[a].0);
    }
    if i == s.len() - 1 {
        assert(s2.drop_last() =~= s.drop_last());
        assert(as_map(s2) == as_map(s.drop_last()).insert(k, v));
        assert(as_map(s).insert(k, v) =~= as_map(s.drop_last()).insert(k, v)) by {
            assert(as_map(s) == as_map(s.drop_last()).insert(k, s[i].1));
        }
    } else {
        assert(distinct_keys(s.drop_last())) by {
            assert(forall|a: int, b: int|
                0 <= a < b < s.drop_last().len() ==> s.drop_last()[a].0 != s.drop_last()[b].0);
        }
        assert(s2.drop_last() =~= s.drop_last().update(i, (k, v)));
        lemma_as_map_update(s.drop_last(), i, v);
        assert(s2.last() == s.last());
        assert(as_map(s2) == as_map(s.drop_last()).insert(k, v).insert(s.last().0, s.last().1));
        assert(s.last().0 != k);
        assert(as_map(s.drop_last()).insert(k, v).insert(s.last().0, s.last().1) =~= as_map(
            s.drop_last(),
        ).insert(s.last().0, s.last().1).insert(k, v));
    }
}

/// Removing the pair that carries a key removes that key alone.
proof fn lemma_as_map_remove<T>(s: Seq<(i64, T)>, i: int)
    requires
        distinct_keys(s),
        0 <= i < s.len(),
    ensures
        as_map(s.remove(i)) == as_map(s).remove(s[i].0),
        distinct_keys(s.remove(i)),
    decreases s.len(),
{
    let k = s[i].0;
    let s2 = s.remove(i);
    assert(distinct_keys(s2)) by {
        assert(forall|a: int|
            0 <= a < s2.len() ==> s2[a] == (if a < i {
                s[a]
            } else {
                s[a + 1]
            }));
    }
    assert(distinct_keys(s.drop_last())) by {
        assert(forall|a: int, b: int|
            0 <= a < b < s.drop_last().len() ==> s.drop_last()[a].0 != s.drop_last()[b].0);
    }
    if i == s.len() - 1 {
        assert(s2 =~= s.drop_last());
        lemma_as_map_contains(s.drop_last(), k);
        assert(as_map(s.drop_last()).insert(k, s[i].1).remove(k) =~= as_map(s.drop_last()));
    } else {
        assert(s2.drop_last() =~= s.drop_last().remove(i));
        lemma_as_map_remove(s.drop_last(), i);
        assert(s2.last() == s.last());
        assert(as_map(s2) == as_map(s.drop_last()).remove(k).insert(s.last().0, s.last().1));
        assert(s.last().0 != k);
        assert(as_map(s.drop_last()).remove(k).insert(s.last().0, s.last().1) =~= as_map(
            s.drop_last(),
        ).insert(s.last().0, s.last().1).remove(k));
    }
}

/// An association map with `i64` keys, stored as a vector of pairs with
/// distinct keys. Lookups are linear; the tables of one match are small, and
/// a deterministic iteration order matters more here than speed.
#[derive(Clone, Debug)]
pub struct AssocMap<V> {
    pairs: Vec<(i64, V)>,
}

impl<V: View> View for AssocMap<V> {
    type V = Map<i64, V::V>;

    open spec fn view(&self) -> Map<i64, V::V> {
        as_map(self.pairs_seq())
    }
}

impl<V: View> AssocMap<V> {
    /// The stored pairs in insertion order, values abstracted.
    pub closed spec fn pairs_seq(&self) -> Seq<(i64, V::V)> {
        Seq::new(self.pairs@.len(), |i: int| (self.pairs@[i].0, self.pairs@[i].1@))
    }

    /// No key occurs twice.
    pub open spec fn wf(&self) -> bool {
        distinct_keys(self.pairs_seq())
    }

    pub fn new() -> (r: AssocMap<V>)
        ensures
            r.wf(),
            r@ == Map::<i64, V::V>::empty(),
            r.pairs_seq() == Seq::<(i64, V::V)>::empty(),
    {
        let r = AssocMap { pairs: Vec::new() };
        proof {
            assert(r.pairs_seq() =~= Seq::<(i64, V::V)>::empty());
        }
        r
    }

    /// How many pairs the map holds.
    pub fn length(&self) -> (r: usize)
        ensures
            r == self.pairs_seq().len(),
    {
        self.pairs.len()
    }

    /// The key stored at slot `i`.
    pub fn key_at(&self, i: usize) -> (r: i64)
        requires
            i < self.pairs_seq().len(),
        ensures
            r == self.pairs_seq()[i as int].0,
    {
        self.pairs[i].0
    }

    /// The value stored at slot `i`.
    pub fn val_at(&self, i: usize) -> (r: &V)
        requires
            i < self.pairs_seq().len(),
        ensures
            r@ == self.pairs_seq()[i as int].1,
    {
        &self.pairs[i].1
    }

    /// The slot that carries key `k`, if any.
    fn index_of(&self, k: i64) -> (r: Option<usize>)
        ensures
            match r {
                Some(i) => i < self.pairs_seq().len() && self.pairs_seq()[i as int].0 == k,
                None => forall|i: int|
                    0 <= i < self.pairs_seq().len() ==> self.pairs_seq()[i].0 != k,
            },
    {
        let mut i: usize = 0;
        while i < self.pairs.len()
            invariant
                i <= self.pairs@.len(),
                forall|j: int| 0 <= j < i ==> self.pairs_seq()[j].0 != k,
            decreases self.pairs@.len() - i,
        {
            if self.pairs[i].0 == k {
                return Some(i);
            }
            i = i + 1;
        }
        None
    }

    /// Look a key up.
    pub fn get(&self, k: i64) -> (r: Option<&V>)
        requires
            self.wf(),
        ensures
            match r {
                Some(v) => self@.contains_key(k) && v@ == self@[k],
                None => !self@.contains_key(k),
            },
    {
        proof {
            lemma_as_map_contains(self.pairs_seq(), k);
        }
        match self.index_of(k) {
            Some(i) => {
                proof {
                    lemma_as_map_at(self.pairs_seq(), i as int);
                }
                Some(&self.pairs[i].1)
            },
            None => None,
        }
    }

    /// Whether a key is present.
    pub fn contains_key(&self, k: i64) -> (r: bool)
        requires
            self.wf(),
        ensures
            r == self@.contains_key(k),
    {
        self.get(k).is_some()
    }

    /// Bind `k` to `v`, replacing any earlier binding in place.
    pub fn insert(&mut self, k: i64, v: V)
        requires
            old(self).wf(),
        ensures
            final(self).wf(),
            final(self)@ == old(self)@.insert(k, v@),
            old(self)@.contains_key(k) ==> final(self).pairs_seq().len() == old(
                self,
            ).pairs_seq().len(),
            !old(self)@.contains_key(k) ==> final(self).pairs_seq() == old(self).pairs_seq().push(
                (k, v@),
            ),
    {
        proof {
            lemma_as_map_contains(self.pairs_seq(), k);
        }
        match self.index_of(k) {
            Some(i) => {
                proof {
                    lemma_as_map_update(self.pairs_seq(), i as int, v@);
                }
                self.pairs[i] = (k, v);
                proof {
                    assert(self.pairs_seq() =~= old(self).pairs_seq().update(
                        i as int,
                        (old(self).pairs_seq()[i as int].0, v@),
                    ));
                }
            },
            None => {
                self.pairs.push((k, v));
                proof {
                    assert(self.pairs_seq() =~= old(self).pairs_seq().push((k, v@)));
                    assert(distinct_keys(self.pairs_seq()));
                    assert(self.pairs_seq().drop_last() =~= old(self).pairs_seq());
                    assert(self.pairs_seq().last() == (k, v@));
                }
            },
        }
    }

    /// Take the binding of `k` out of the map, handing its value back.
    pub fn remove(&mut self, k: i64) -> (r: Option<V>)
        requires
            old(self).wf(),
        ensures
            final(self).wf(),
            final(self)@ == old(self)@.remove(k),
            match r {
                Some(v) => old(self)@.contains_key(k) && v@ == old(self)@[k],
                None => !old(self)@.contains_key(k) && final(self).pairs_seq() == old(
                    self,
                ).pairs_seq(),
            },
    {
        proof {
            lemma_as_map_contains(self.pairs_seq(), k);
        }
        match self.index_of(k) {
            Some(i) => {
                proof {
                    lemma_as_map_at(self.pairs_seq(), i as int);
                    lemma_as_map_remove(self.pairs_seq(), i as int);
                }
                let (_, v) = self.pairs.remove(i);
                proof {
                    assert(self.pairs_seq() =~= old(self).pairs_seq().remove(i as int));
                }
                Some(v)
            },
            None => {
                proof {
                    assert(old(self)@.remove(k) =~= old(self)@);
                }
                None
            },
        }
    }

    /// Every stored key, in slot order.
    pub fn keys(&self) -> (r: Vec<i64>)
        ensures
            r@ == Seq::new(self.pairs_seq().len(), |i: int| self.pairs_seq()[i].0),
    {
        let mut out: Vec<i64> = Vec::new();
        let mut i: usize = 0;
        while i < self.pairs.len()
            invariant
                i <= self.pairs@.len(),
                out@.len() == i,
                forall|j: int| 0 <= j < i ==> out@[j] == self.pairs_seq()[j].0,
            decreases self.pairs@.len() - i,
        {
            out.push(self.pairs[i].0);
            i = i + 1;
        }
        proof {
            assert(out@ =~= Seq::new(self.pairs_seq().len(), |j: int| self.pairs_seq()[j].0));
        }
        out
    }

    /// Replace the value at slot `i`, keeping its key.
    pub fn set_val_at(&mut self, i: usize, v: V)
        requires
            old(self).wf(),
            i < old(self).pairs_seq().len(),
        ensures
            final(self).wf(),
            final(self).pairs_seq() == old(self).pairs_seq().update(
                i as int,
                (old(self).pairs_seq()[i as int].0, v@),
            ),
            final(self)@ == old(self)@.insert(old(self).pairs_seq()[i as int].0, v@),
    {
        proof {
            lemma_as_map_update(self.pairs_seq(), i as int, v@);
        }
        let k = self.pairs[i].0;
        self.pairs[i] = (k, v);
        proof {
            assert(self.pairs_seq() =~= old(self).pairs_seq().update(
                i as int,
                (old(self).pairs_seq()[i as int].0, v@),
            ));
        }
    }
}

} // verus!
