use vstd::prelude::*;
use vstd::map::*;

verus! {

/// The map described by a list of key/value pairs, where a later pair for
/// the same key shadows an earlier one.
pub open spec fn map_of(ps: Seq<(Seq<char>, Seq<char>)>) -> Map<Seq<char>, Seq<char>>
    decreases ps.len(),
{
    if ps.len() == 0 {
        Map::empty()
    } else {
        map_of(ps.drop_last()).insert(ps.last().0, ps.last().1)
    }
}

/// The pairs of a list of `String` entries, as sequences of characters.
pub open spec fn pairs_of(es: Seq<(String, String)>) -> Seq<(Seq<char>, Seq<char>)> {
    es.map_values(|e: (String, String)| (e.0@, e.1@))
}

/// A string-to-string table, stored as a list of entries and viewed as a
/// `Map<Seq<char>, Seq<char>>`.
pub struct StrMap {
    entries: Vec<(String, String)>,
}

impl View for StrMap {
    type V = Map<Seq<char>, Seq<char>>;

    open spec fn view(&self) -> Map<Seq<char>, Seq<char>> {
        map_of(self.pairs())
    }
}

impl StrMap {
    /// The entries in storage order, as sequences of characters.
    pub closed spec fn pairs(&self) -> Seq<(Seq<char>, Seq<char>)> {
        pairs_of(self.entries@)
    }

    /// An empty table.
    pub fn new() -> (r: StrMap)
        ensures
            r@ == Map::<Seq<char>, Seq<char>>::empty(),
            r.pairs() == Seq::<(Seq<char>, Seq<char>)>::empty(),
    {
        let r = StrMap { entries: Vec::new() };
        proof {
            assert(r.pairs() =~= Seq::<(Seq<char>, Seq<char>)>::empty());
        }
        r
    }

    /// Adds a pair; a pair already present for the key is shadowed.
    pub fn insert(&mut self, key: String, value: String)
        ensures
            final(self)@ == old(self)@.insert(key@, value@),
            final(self).pairs() == old(self).pairs().push((key@, value@)),
    {
        let ghost k = key@;
        let ghost v = value@;
        self.entries.push((key, value));
        proof {
            assert(self.pairs() =~= old(self).pairs().push((k, v)));
            assert(self.pairs().drop_last() =~= old(self).pairs());
        }
    }

    /// Looks a key up; the latest pair for the key decides.
    pub fn get(&self, key: &String) -> (r: Option<String>)
        ensures
            match r {
                Some(v) => self@.contains_key(key@) && v@ == self@[key@],
                None => !self@.contains_key(key@),
            },
    {
        let n = self.entries.len();
        let mut i = n;
        proof {
            assert(self.pairs().take(n as int) =~= self.pairs());
        }
        while i > 0
            invariant
                i <= n,
                n == self.entries@.len(),
                n == self.pairs().len(),
                self@.contains_key(key@) == map_of(self.pairs().take(i as int)).contains_key(
                    key@,
                ),
                map_of(self.pairs().take(i as int)).contains_key(key@) ==> self@[key@] == map_of(
                    self.pairs().take(i as int),
                )[key@],
            decreases i,
        {
            proof {
                assert(self.pairs().take(i as int).drop_last() =~= self.pairs().take(i - 1));
                assert(self.pairs().take(i as int).last() == self.pairs()[i - 1]);
            }
            if self.entries[i - 1].0 == *key {
                return Some(self.entries[i - 1].1.clone());
            }
            i = i - 1;
        }
        proof {
            assert(self.pairs().take(0) =~= Seq::<(Seq<char>, Seq<char>)>::empty());
        }
        None
    }

    /// Reports whether a key is present.
    pub fn contains_key(&self, key: &String) -> (r: bool)
        ensures
            r == self@.contains_key(key@),
    {
        self.get(key).is_some()
    }

    /// Drops every pair stored for the key.
    pub fn remove(&mut self, key: &String)
        ensures
            final(self)@ == old(self)@.remove(key@),
    {
        let n = self.entries.len();
        let mut kept: Vec<(String, String)> = Vec::new();
        let mut i: usize = 0;
        while i < n
            invariant
                i <= n,
                n == old(self).entries@.len(),
                self == old(self),
                map_of(pairs_of(kept@)) == map_of(old(self).pairs().take(i as int)).remove(key@),
            decreases n - i,
        {
            proof {
                assert(old(self).pairs().take(i + 1).drop_last() =~= old(self).pairs().take(
                    i as int,
                ));
                assert(old(self).pairs().take(i + 1).last() == old(self).pairs()[i as int]);
            }
            let ghost prev = map_of(pairs_of(kept@));
            let ghost prev_pairs = pairs_of(kept@);
            if self.entries[i].0 != *key {
                let e = (self.entries[i].0.clone(), self.entries[i].1.clone());
                let ghost ek = e.0@;
                let ghost ev = e.1@;
                kept.push(e);
                proof {
                    assert(pairs_of(kept@).drop_last() =~= prev_pairs);
                    assert(pairs_of(kept@).last() == (ek, ev));
                    assert(map_of(pairs_of(kept@)) == prev.insert(ek, ev));
                    assert(map_of(old(self).pairs().take(i + 1)).remove(key@) =~= map_of(old(
                        self,
                    ).pairs().take(i as int)).remove(key@).insert(ek, ev));
                }
            } else {
                proof {
                    assert(map_of(old(self).pairs().take(i + 1)).remove(key@) =~= map_of(old(
                        self,
                    ).pairs().take(i as int)).remove(key@));
                }
            }
            i = i + 1;
        }
        proof {
            assert(old(self).pairs().take(n as int) =~= old(self).pairs());
        }
        self.entries = kept;
    }

    /// The number of stored pairs.
    pub fn len(&self) -> (n: usize)
        ensures
            n == self.pairs().len(),
    {
        self.entries.len()
    }

    /// A copy of the pair at a storage position.
    pub fn entry_at(&self, i: usize) -> (e: (String, String))
        requires
            i < self.pairs().len(),
        ensures
            e.0@ == self.pairs()[i as int].0,
            e.1@ == self.pairs()[i as int].1,
    {
        (self.entries[i].0.clone(), self.entries[i].1.clone())
    }
}

} // verus!
