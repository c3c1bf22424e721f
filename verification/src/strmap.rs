//! A map from strings to strings that remembers the order in which its keys
//! were first inserted.

use vstd::prelude::*;
use crate::text::same_chars;
use crate::text::chars_of;

verus! {

/// The map that a sequence of key/value pairs describes: a later pair for a
/// key wins over an earlier one.
pub open spec fn map_of(es: Seq<(Seq<char>, Seq<char>)>) -> Map<Seq<char>, Seq<char>>
    decreases es.len(),
{
    if es.len() == 0 {
        Map::empty()
    } else {
        map_of(es.drop_last()).insert(es.last().0, es.last().1)
    }
}

/// No key occurs twice in `es`.
pub open spec fn keys_distinct(es: Seq<(Seq<char>, Seq<char>)>) -> bool {
    forall|i: int, j: int| 0 <= i < j < es.len() ==> es[i].0 != es[j].0
}

/// The key/value views of a vector of string pairs.
pub open spec fn pair_views(v: Seq<(String, String)>) -> Seq<(Seq<char>, Seq<char>)> {
    v.map_values(|e: (String, String)| (e.0@, e.1@))
}

/// A map from strings to strings (the semantics of `HashMap<String, String>`),
/// whose entries keep the order in which their keys were first inserted.
pub struct StrMap {
    entries: Vec<(String, String)>,
}

impl View for StrMap {
    type V = Map<Seq<char>, Seq<char>>;

    open spec fn view(&self) -> Map<Seq<char>, Seq<char>> {
        map_of(self.entry_seq())
    }
}

/// The keys of `map_of(es)` are those that occur in `es`, each with the value
/// of the pair it occurs in when keys are distinct.
pub proof fn lemma_map_of(es: Seq<(Seq<char>, Seq<char>)>)
    ensures
        forall|k: Seq<char>|
            map_of(es).dom().contains(k) <==> exists|i: int| 0 <= i < es.len() && es[i].0 == k,
        keys_distinct(es) ==> forall|i: int|
            0 <= i < es.len() ==> #[trigger] map_of(es)[es[i].0] == es[i].1,
        map_of(es).dom().finite(),
        keys_distinct(es) ==> map_of(es).dom().len() == es.len(),
    decreases es.len(),
{
    if es.len() > 0 {
        let front = es.drop_last();
        lemma_map_of(front);
        assert forall|k: Seq<char>|
            map_of(es).dom().contains(k) <==> exists|i: int| 0 <= i < es.len() && es[i].0 == k by {
            if map_of(es).dom().contains(k) && k != es.last().0 {
                let i = choose|i: int| 0 <= i < front.len() && front[i].0 == k;
                assert(es[i].0 == k);
            }
            if exists|i: int| 0 <= i < es.len() && es[i].0 == k {
                let i = choose|i: int| 0 <= i < es.len() && es[i].0 == k;
                if i < es.len() - 1 {
                    assert(front[i].0 == k);
                }
            }
        }
        if keys_distinct(es) {
            assert(keys_distinct(front));
            assert forall|i: int| 0 <= i < es.len() implies #[trigger] map_of(es)[es[i].0]
                == es[i].1 by {
                if i < es.len() - 1 {
                    assert(front[i] == es[i]);
                }
            }
            assert(!map_of(front).dom().contains(es.last().0)) by {
                if map_of(front).dom().contains(es.last().0) {
                    let i = choose|i: int| 0 <= i < front.len() && front[i].0 == es.last().0;
                    assert(es[i].0 == es[es.len() - 1].0);
                }
            }
        }
    }
}

/// Replacing the value of a key that occurs at index `j` (keys distinct)
/// updates the map at that key.
proof fn lemma_map_of_update(es: Seq<(Seq<char>, Seq<char>)>, j: int, v: Seq<char>)
    requires
        keys_distinct(es),
        0 <= j < es.len(),
    ensures
        map_of(es.update(j, (es[j].0, v))) == map_of(es).insert(es[j].0, v),
    decreases es.len(),
{
    let k = es[j].0;
    let es2 = es.update(j, (k, v));
    if j == es.len() - 1 {
        assert(es2.drop_last() =~= es.drop_last());
        assert(map_of(es2) =~= map_of(es).insert(k, v));
    } else {
        let front = es.drop_last();
        assert(es2.drop_last() =~= front.update(j, (k, v)));
        assert(keys_distinct(front));
        lemma_map_of_update(front, j, v);
        assert(es.last().0 != k);
        assert(map_of(es2) =~= map_of(es).insert(k, v));
    }
}

impl StrMap {
    /// The key/value pairs, in the order of first insertion.
    pub closed spec fn entry_seq(&self) -> Seq<(Seq<char>, Seq<char>)> {
        pair_views(self.entries@)
    }

    #[verifier::type_invariant]
    spec fn inv(&self) -> bool {
        keys_distinct(self.entry_seq())
    }

    /// An empty map.
    pub fn new() -> (m: Self)
        ensures
            m@ == Map::<Seq<char>, Seq<char>>::empty(),
            m.entry_seq() == Seq::<(Seq<char>, Seq<char>)>::empty(),
    {
        let m = StrMap { entries: Vec::new() };
        assert(m.entry_seq() =~= Seq::<(Seq<char>, Seq<char>)>::empty());
        m
    }

    /// The index of the entry with key `key`.
    fn position(&self, key: &str) -> (r: Option<usize>)
        ensures
            r matches Some(i) ==> i < self.entry_seq().len() && self.entry_seq()[i as int].0
                == key@,
            r is None ==> forall|i: int|
                0 <= i < self.entry_seq().len() ==> self.entry_seq()[i].0 != key@,
    {
        let k = chars_of(key);
        let mut i: usize = 0;
        while i < self.entries.len()
            invariant
                0 <= i <= self.entries@.len(),
                k@ == key@,
                self.entry_seq().len() == self.entries@.len(),
                forall|j: int| 0 <= j < i ==> self.entry_seq()[j].0 != key@,
            decreases self.entries@.len() - i,
        {
            let ek = chars_of(self.entries[i].0.as_str());
            if same_chars(&ek, &k) {
                return Some(i);
            }
            i = i + 1;
        }
        None
    }

    /// Sets the value of `key` to `value` (`HashMap::insert`): a new key is
    /// added after the existing entries, an existing one keeps its place.
    pub fn insert(&mut self, key: String, value: String)
        ensures
            final(self)@ == old(self)@.insert(key@, value@),
            old(self)@.dom().contains(key@) ==> exists|i: int|
                0 <= i < old(self).entry_seq().len() && old(self).entry_seq()[i].0 == key@
                    && final(self).entry_seq() == old(self).entry_seq().update(i, (key@, value@)),
            !old(self)@.dom().contains(key@) ==> final(self).entry_seq() == old(
                self,
            ).entry_seq().push((key@, value@)),
    {
        proof {
            use_type_invariant(&*self);
            lemma_map_of(self.entry_seq());
        }
        match self.position(key.as_str()) {
            Some(i) => {
                let ghost es = self.entry_seq();
                let mut entries: Vec<(String, String)> = Vec::new();
                std::mem::swap(&mut entries, &mut self.entries);
                entries.set(i, (key, value));
                assert(pair_views(entries@) =~= es.update(i as int, (es[i as int].0, value@)));
                proof {
                    lemma_map_of_update(es, i as int, value@);
                }
                self.entries = entries;
                assert(self.entry_seq() == es.update(i as int, (key@, value@)));
            },
            None => {
                let ghost es = self.entry_seq();
                assert(!map_of(es).dom().contains(key@));
                let mut entries: Vec<(String, String)> = Vec::new();
                std::mem::swap(&mut entries, &mut self.entries);
                entries.push((key, value));
                assert(pair_views(entries@) =~= es.push((key@, value@)));
                assert(pair_views(entries@).drop_last() =~= es);
                self.entries = entries;
            },
        }
    }

    /// The value of `key`, if the map has one (`HashMap::get`).
    pub fn get(&self, key: &str) -> (r: Option<&String>)
        ensures
            r matches Some(v) ==> self@.dom().contains(key@) && v@ == self@[key@],
            r is None ==> !self@.dom().contains(key@),
    {
        proof {
            use_type_invariant(self);
            lemma_map_of(self.entry_seq());
        }
        match self.position(key) {
            Some(i) => {
                assert(self.entry_seq()[i as int].1 == self.entries@[i as int].1@);
                Some(&self.entries[i].1)
            },
            None => None,
        }
    }

    /// Whether the map has no entry (`HashMap::is_empty`).
    pub fn is_empty(&self) -> (r: bool)
        ensures
            r == (self@ == Map::<Seq<char>, Seq<char>>::empty()),
    {
        proof {
            use_type_invariant(self);
            lemma_map_of(self.entry_seq());
        }
        if self.entries.len() == 0 {
            assert(self@ =~= Map::<Seq<char>, Seq<char>>::empty());
            true
        } else {
            assert(self@.dom().contains(self.entry_seq()[0].0));
            false
        }
    }

    /// The number of keys (`HashMap::len`).
    pub fn len(&self) -> (r: usize)
        ensures
            r == self@.dom().len(),
            r == self.entry_seq().len(),
    {
        proof {
            use_type_invariant(self);
            lemma_map_of(self.entry_seq());
        }
        self.entries.len()
    }

    /// The entries, in the order of first insertion.
    pub fn entries(&self) -> (r: &Vec<(String, String)>)
        ensures
            pair_views(r@) == self.entry_seq(),
            keys_distinct(self.entry_seq()),
            self@ == map_of(self.entry_seq()),
    {
        proof {
            use_type_invariant(self);
        }
        &self.entries
    }
}

} // verus!
