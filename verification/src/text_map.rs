//! A map from texts to values, kept as a list of entries.
use crate::text;
use vstd::prelude::*;

verus! {

/// A map whose keys are texts.
#[derive(Debug)]
pub struct TextMap<V> {
    entries: Vec<(String, V)>,
}

/// The first entry under `key`.
spec fn place<V>(s: Seq<(String, V)>, key: Seq<char>) -> Option<int>
    decreases s.len(),
{
    if s.len() == 0 {
        None
    } else {
        match place(s.drop_last(), key) {
            Some(i) => Some(i),
            None => if s.last().0@ == key {
                Some(s.len() - 1)
            } else {
                None
            },
        }
    }
}

proof fn lemma_place<V>(s: Seq<(String, V)>, key: Seq<char>)
    ensures
        match place(s, key) {
            Some(i) => 0 <= i < s.len() && s[i].0@ == key && forall|j: int|
                0 <= j < i ==> (#[trigger] s[j]).0@ != key,
            None => forall|j: int| 0 <= j < s.len() ==> (#[trigger] s[j]).0@ != key,
        },
    decreases s.len(),
{
    if s.len() > 0 {
        let t = s.drop_last();
        lemma_place(t, key);
        let bound = match place(s, key) {
            Some(i) => i,
            None => s.len() as int,
        };
        assert forall|j: int| 0 <= j < bound implies (#[trigger] s[j]).0@ != key by {
            if j < t.len() {
                assert(t[j].0@ == s[j].0@);
            }
        }
    }
}

/// An entry under `key` with none before it is the first one.
proof fn lemma_is_place<V>(s: Seq<(String, V)>, key: Seq<char>, i: int)
    requires
        0 <= i < s.len(),
        s[i].0@ == key,
        forall|j: int| 0 <= j < i ==> (#[trigger] s[j]).0@ != key,
    ensures
        place(s, key) == Some(i),
{
    lemma_place(s, key);
    let k = place(s, key)->0;
    if k < i {
        assert(s[k].0@ != key);
    } else if i < k {
        assert(s[i].0@ != key);
    }
}

impl<V> View for TextMap<V> {
    type V = Map<Seq<char>, V>;

    closed spec fn view(&self) -> Map<Seq<char>, V> {
        Map::new(
            |key: Seq<char>| place(self.entries@, key) is Some,
            |key: Seq<char>| self.entries@[place(self.entries@, key)->0].1,
        )
    }
}

impl<V> TextMap<V> {
    /// A map without entries.
    pub fn new() -> (r: TextMap<V>)
        ensures
            r@ == Map::<Seq<char>, V>::empty(),
    {
        let r = TextMap { entries: Vec::new() };
        assert(r@ =~= Map::<Seq<char>, V>::empty());
        r
    }

    /// Where `key` stands.
    fn position(&self, key: &str) -> (r: Option<usize>)
        ensures
            match r {
                Some(i) => i < self.entries@.len() && place(self.entries@, key@) == Some(i as int),
                None => place(self.entries@, key@) is None,
            },
    {
        let mut i: usize = 0;
        while i < self.entries.len()
            invariant
                i <= self.entries@.len(),
                forall|j: int| 0 <= j < i ==> (#[trigger] self.entries@[j]).0@ != key@,
            decreases self.entries@.len() - i,
        {
            if text::same(self.entries[i].0.as_str(), key) {
                proof {
                    lemma_is_place(self.entries@, key@, i as int);
                }
                return Some(i);
            }
            i = i + 1;
        }
        proof {
            lemma_place(self.entries@, key@);
        }
        None
    }

    /// The value under `key`.
    pub fn get(&self, key: &str) -> (r: Option<&V>)
        ensures
            match r {
                Some(v) => self@.contains_key(key@) && *v == self@[key@],
                None => !self@.contains_key(key@),
            },
    {
        match self.position(key) {
            Some(i) => Some(&self.entries[i].1),
            None => None,
        }
    }

    /// Whether there is a value under `key`.
    pub fn contains_key(&self, key: &str) -> (r: bool)
        ensures
            r == self@.contains_key(key@),
    {
        self.position(key).is_some()
    }

    /// Whether there is no entry.
    pub fn is_empty(&self) -> (r: bool)
        ensures
            r == (self@ =~= Map::<Seq<char>, V>::empty()),
            !r ==> exists|key: Seq<char>| #[trigger] self@.contains_key(key),
    {
        proof {
            if self.entries@.len() == 0 {
                assert(self@ =~= Map::<Seq<char>, V>::empty());
            } else {
                let key = self.entries@[0].0@;
                lemma_is_place(self.entries@, key, 0);
                assert(self@.contains_key(key));
            }
        }
        self.entries.len() == 0
    }

    /// Puts a value under `key`, in place of the one that was there.
    pub fn insert(&mut self, key: String, value: V)
        ensures
            final(self)@ == old(self)@.insert(key@, value),
    {
        let ghost s = self.entries@;
        let ghost k = key@;
        let ghost before = self@;
        let at = self.position(key.as_str());
        match at {
            Some(i) => {
                self.entries.set(i, (key, value));
            },
            None => {
                self.entries.push((key, value));
            },
        }
        proof {
            let t = self.entries@;
            let i = match at {
                Some(i) => i as int,
                None => s.len() as int,
            };
            lemma_place(s, k);
            assert forall|x: Seq<char>| #[trigger]
                self@.contains_key(x) == before.insert(k, value).contains_key(x) && (
            self@.contains_key(x) ==> self@[x] == before.insert(k, value)[x]) by {
                lemma_place(s, x);
                lemma_place(t, x);
                if x == k {
                    lemma_is_place(t, k, i);
                } else {
                    match place(s, x) {
                        Some(j) => {
                            assert(t[j] == s[j]);
                            lemma_is_place(t, x, j);
                        },
                        None => {
                            if place(t, x) is Some {
                                let j = place(t, x)->0;
                                assert(t[j].0@ == x);
                                assert(j != i);
                                assert(s[j].0@ == x);
                            }
                        },
                    }
                }
            }
            assert(self@ =~= before.insert(k, value));
        }
    }
}

} // verus!
