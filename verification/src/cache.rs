use vstd::prelude::*;

verus! {

/// The results kept per picture address, so that a picture already
/// evaluated is answered without a new evaluation.
pub struct ResultCache<V> {
    /// The entries in the order they were first recorded; an address occurs
    /// at most once when only `insert` fills the cache, and where it occurs
    /// more than once the last entry counts.
    pub entries: Vec<(String, V)>,
}

/// The map that the entries `s` describe: each address to the value of its
/// last entry.
pub open spec fn entries_map<V>(s: Seq<(String, V)>) -> Map<Seq<char>, V>
    decreases s.len(),
{
    if s.len() == 0 {
        Map::empty()
    } else {
        entries_map(s.drop_last()).insert(s.last().0@, s.last().1)
    }
}

impl<V> View for ResultCache<V> {
    type V = Map<Seq<char>, V>;

    open spec fn view(&self) -> Map<Seq<char>, V> {
        entries_map(self.entries@)
    }
}

/// What the cache `cache` holds for the address `url`.
pub open spec fn cached_for<V>(cache: Map<Seq<char>, V>, url: Seq<char>) -> Option<V> {
    if cache.contains_key(url) {
        Some(cache[url])
    } else {
        None
    }
}

/// Whether `i` is the last position of `s` whose address is `key`.
pub open spec fn is_last_with_key<V>(s: Seq<(String, V)>, i: int, key: Seq<char>) -> bool {
    &&& 0 <= i < s.len()
    &&& s[i].0@ == key
    &&& forall|j: int| i < j < s.len() ==> #[trigger] s[j].0@ != key
}

proof fn lemma_absent_key<V>(s: Seq<(String, V)>, key: Seq<char>)
    requires
        forall|j: int| 0 <= j < s.len() ==> #[trigger] s[j].0@ != key,
    ensures
        !entries_map(s).contains_key(key),
    decreases s.len(),
{
    if s.len() > 0 {
        let r = s.drop_last();
        assert forall|j: int| 0 <= j < r.len() implies #[trigger] r[j].0@ != key by {
            assert(r[j] == s[j]);
        }
        lemma_absent_key(r, key);
    }
}

proof fn lemma_last_with_key<V>(s: Seq<(String, V)>, i: int, key: Seq<char>)
    requires
        is_last_with_key(s, i, key),
    ensures
        entries_map(s).contains_key(key),
        entries_map(s)[key] == s[i].1,
    decreases s.len(),
{
    if i < s.len() - 1 {
        let r = s.drop_last();
        assert(s.last().0@ != key);
        assert forall|j: int| i < j < r.len() implies #[trigger] r[j].0@ != key by {
            assert(r[j] == s[j]);
        }
        lemma_last_with_key(r, i, key);
    }
}

proof fn lemma_update_last<V>(s: Seq<(String, V)>, i: int, e: (String, V))
    requires
        is_last_with_key(s, i, e.0@),
    ensures
        entries_map(s.update(i, e)) == entries_map(s).insert(e.0@, e.1),
    decreases s.len(),
{
    let t = s.update(i, e);
    if i == s.len() - 1 {
        assert(t.drop_last() =~= s.drop_last());
        assert(entries_map(t) =~= entries_map(s).insert(e.0@, e.1));
    } else {
        let r = s.drop_last();
        assert(s.last().0@ != e.0@);
        assert forall|j: int| i < j < r.len() implies #[trigger] r[j].0@ != e.0@ by {
            assert(r[j] == s[j]);
        }
        lemma_update_last(r, i, e);
        assert(t.drop_last() =~= r.update(i, e));
        assert(t.last() == s.last());
        assert(entries_map(t) =~= entries_map(s).insert(e.0@, e.1));
    }
}

impl<V> ResultCache<V> {
    /// An empty cache.
    pub fn new() -> (c: ResultCache<V>)
        ensures
            c@ == Map::<Seq<char>, V>::empty(),
    {
        ResultCache { entries: Vec::new() }
    }

    /// The position of the last entry for `key`, if any.
    fn position(&self, key: &String) -> (r: Option<usize>)
        ensures
            match r {
                Some(i) => is_last_with_key(self.entries@, i as int, key@),
                None => forall|j: int|
                    0 <= j < self.entries@.len() ==> #[trigger] self.entries@[j].0@ != key@,
            },
    {
        let mut k: usize = self.entries.len();
        while k > 0
            invariant
                k <= self.entries.len(),
                forall|j: int| k <= j < self.entries@.len() ==> #[trigger] self.entries@[j].0@
                    != key@,
            decreases k,
        {
            if self.entries[k - 1].0 == *key {
                return Some(k - 1);
            }
            k = k - 1;
        }
        None
    }

    /// The result kept for the address `key`, if any.
    pub fn get(&self, key: &String) -> (r: Option<&V>)
        ensures
            match r {
                Some(v) => cached_for(self@, key@) == Some(*v),
                None => cached_for(self@, key@) is None,
            },
    {
        match self.position(key) {
            Some(i) => {
                proof {
                    lemma_last_with_key(self.entries@, i as int, key@);
                }
                Some(&self.entries[i].1)
            },
            None => {
                proof {
                    lemma_absent_key(self.entries@, key@);
                }
                None
            },
        }
    }

    /// Keeps `value` for the address `key`, in place of any earlier result.
    pub fn insert(&mut self, key: String, value: V)
        ensures
            final(self)@ == old(self)@.insert(key@, value),
    {
        match self.position(&key) {
            Some(i) => {
                proof {
                    lemma_update_last(self.entries@, i as int, (key, value));
                }
                self.entries.set(i, (key, value));
            },
            None => {
                let ghost k = key@;
                self.entries.push((key, value));
                assert(self.entries@.drop_last() =~= old(self).entries@);
                assert(self@ == old(self)@.insert(k, value));
            },
        }
    }
}

} // verus!
