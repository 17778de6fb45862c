//! Flattening of keyed groups of values.
use vstd::prelude::*;

verus! {

/// Adapter over groups of (key, values) that yields, for each group, a `Flattening` producing
/// (key, value) pairs with the key cloned for each value.
pub struct FlatAdapter<K, V>(pub Vec<(K, Vec<V>)>);

/// Producer of (key, value) pairs for one group, cloning the key for each value.
pub struct Flattening<K, V>(K, Vec<V>);

impl<K, V> Flattening<K, V> {
    /// The group's key.
    pub closed spec fn key(&self) -> K {
        self.0
    }

    /// The values not yet produced, in order.
    pub closed spec fn values(&self) -> Seq<V> {
        self.1@
    }

    /// Returns the number of pairs not yet produced.
    pub fn len(&self) -> (r: usize)
        ensures
            r == self.values().len(),
    {
        self.1.len()
    }
}

impl<K: Clone, V> Flattening<K, V> {
    /// Produces the pair of the key and the first remaining value, or `None` when all are
    /// produced.
    pub fn next(&mut self) -> (r: Option<(K, V)>)
        ensures
            final(self).key() == old(self).key(),
            old(self).values().len() == 0 ==> r is None && final(self).values() == old(
                self,
            ).values(),
            old(self).values().len() > 0 ==> (r matches Some((k, v)) && cloned(old(self).key(), k)
                && v == old(self).values()[0] && final(self).values() == old(
                self,
            ).values().drop_first()),
    {
        if self.1.len() == 0 {
            return None;
        }
        let v = self.1.remove(0);
        let k = self.0.clone();
        proof {
            assert(old(self).values().remove(0) =~= old(self).values().drop_first());
        }
        Some((k, v))
    }

    /// Produces the pair of the key and the last remaining value, or `None` when all are
    /// produced.
    pub fn next_back(&mut self) -> (r: Option<(K, V)>)
        ensures
            final(self).key() == old(self).key(),
            old(self).values().len() == 0 ==> r is None && final(self).values() == old(
                self,
            ).values(),
            old(self).values().len() > 0 ==> (r matches Some((k, v)) && cloned(old(self).key(), k)
                && v == old(self).values().last() && final(self).values() == old(
                self,
            ).values().drop_last()),
    {
        match self.1.pop() {
            None => None,
            Some(v) => {
                let k = self.0.clone();
                Some((k, v))
            },
        }
    }
}

impl<K, V> FlatAdapter<K, V> {
    /// Returns the number of groups not yet yielded.
    pub fn len(&self) -> (r: usize)
        ensures
            r == self.0@.len(),
    {
        self.0.len()
    }

    /// Yields a `Flattening` of the first remaining group, or `None` when all are yielded.
    pub fn next(&mut self) -> (r: Option<Flattening<K, V>>)
        ensures
            old(self).0@.len() == 0 ==> r is None && final(self).0@ == old(self).0@,
            old(self).0@.len() > 0 ==> (r matches Some(f) && f.key() == old(self).0@[0].0
                && f.values() == old(self).0@[0].1@ && final(self).0@ == old(self).0@.drop_first()),
    {
        if self.0.len() == 0 {
            return None;
        }
        let (k, vs) = self.0.remove(0);
        proof {
            assert(old(self).0@.remove(0) =~= old(self).0@.drop_first());
        }
        Some(Flattening(k, vs))
    }

    /// Yields a `Flattening` of the last remaining group, or `None` when all are yielded.
    pub fn next_back(&mut self) -> (r: Option<Flattening<K, V>>)
        ensures
            old(self).0@.len() == 0 ==> r is None && final(self).0@ == old(self).0@,
            old(self).0@.len() > 0 ==> (r matches Some(f) && f.key() == old(self).0@.last().0
                && f.values() == old(self).0@.last().1@ && final(self).0@ == old(
                self,
            ).0@.drop_last()),
    {
        match self.0.pop() {
            None => None,
            Some((k, vs)) => Some(Flattening(k, vs)),
        }
    }
}

} // verus!
