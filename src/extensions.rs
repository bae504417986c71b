use vstd::prelude::*;

verus! {

/// The map that a list of entries stands for: a later entry for a key
/// overrides an earlier one.
pub open spec fn map_of(entries: Seq<(String, String)>) -> Map<Seq<char>, Seq<char>>
    decreases entries.len(),
{
    if entries.len() == 0 {
        Map::empty()
    } else {
        map_of(entries.drop_last()).insert(entries.last().0@, entries.last().1@)
    }
}

proof fn lemma_map_of_push(entries: Seq<(String, String)>, e: (String, String))
    ensures
        map_of(entries.push(e)) == map_of(entries).insert(e.0@, e.1@),
{
    assert(entries.push(e).drop_last() =~= entries);
}

proof fn lemma_map_of_prefix(entries: Seq<(String, String)>, j: int)
    requires
        0 <= j < entries.len(),
    ensures
        map_of(entries.subrange(0, j + 1)) == map_of(entries.subrange(0, j)).insert(
            entries[j].0@,
            entries[j].1@,
        ),
{
    assert(entries.subrange(0, j + 1) =~= entries.subrange(0, j).push(entries[j]));
    lemma_map_of_push(entries.subrange(0, j), entries[j]);
}

/// Entries after a prefix that do not name `key` leave what the map holds
/// for `key` as the prefix has it.
proof fn lemma_map_of_untouched_suffix(entries: Seq<(String, String)>, j: int, key: Seq<char>)
    requires
        0 <= j <= entries.len(),
        forall|t: int| j <= t < entries.len() ==> (#[trigger] entries[t]).0@ != key,
    ensures
        map_of(entries).contains_key(key) == map_of(entries.subrange(0, j)).contains_key(key),
        map_of(entries)[key] == map_of(entries.subrange(0, j))[key],
    decreases entries.len() - j,
{
    if j == entries.len() {
        assert(entries.subrange(0, j) =~= entries);
    } else {
        lemma_map_of_untouched_suffix(entries, j + 1, key);
        lemma_map_of_prefix(entries, j);
    }
}

/// A registry of named values that the stages of a chain use to hand data to
/// later stages; at most one value per name.
pub struct Extensions {
    entries: Vec<(String, String)>,
}

impl View for Extensions {
    type V = Map<Seq<char>, Seq<char>>;

    closed spec fn view(&self) -> Map<Seq<char>, Seq<char>> {
        map_of(self.entries@)
    }
}

impl Extensions {
    /// An empty registry.
    pub fn new() -> (r: Extensions)
        ensures
            r@ == Map::<Seq<char>, Seq<char>>::empty(),
    {
        Extensions { entries: Vec::new() }
    }

    /// The value stored under `key`, if any.
    pub fn get(&self, key: &str) -> (r: Option<&str>)
        ensures
            match r {
                Some(v) => self@.contains_key(key@) && self@[key@] == v@,
                None => !self@.contains_key(key@),
            },
    {
        let wanted = key.to_owned();
        let mut j: usize = self.entries.len();
        while j > 0
            invariant
                j <= self.entries@.len(),
                wanted@ == key@,
                forall|t: int| j <= t < self.entries@.len() ==> (#[trigger] self.entries@[t]).0@ != key@,
            decreases j,
        {
            let e = &self.entries[j - 1];
            if e.0.eq(&wanted) {
                proof {
                    lemma_map_of_untouched_suffix(self.entries@, j as int, key@);
                    lemma_map_of_prefix(self.entries@, j - 1);
                }
                return Some(e.1.as_str());
            }
            j = j - 1;
        }
        proof {
            lemma_map_of_untouched_suffix(self.entries@, 0, key@);
            assert(self.entries@.subrange(0, 0) =~= Seq::<(String, String)>::empty());
        }
        None
    }

    /// Takes out the value stored under `key`, if any.
    pub fn remove(&mut self, key: &str) -> (r: Option<String>)
        ensures
            final(self)@ == old(self)@.remove(key@),
            match r {
                Some(v) => old(self)@.contains_key(key@) && old(self)@[key@] == v@,
                None => !old(self)@.contains_key(key@),
            },
    {
        let found = match self.get(key) {
            Some(v) => Some(v.to_owned()),
            None => None,
        };
        let wanted = key.to_owned();
        let mut kept: Vec<(String, String)> = Vec::new();
        let mut i: usize = 0;
        while i < self.entries.len()
            invariant
                i <= self.entries@.len(),
                wanted@ == key@,
                map_of(kept@) == map_of(self.entries@.subrange(0, i as int)).remove(key@),
            decreases self.entries@.len() - i,
        {
            let e = &self.entries[i];
            proof {
                lemma_map_of_prefix(self.entries@, i as int);
            }
            if !e.0.eq(&wanted) {
                let copy = (e.0.clone(), e.1.clone());
                proof {
                    lemma_map_of_push(kept@, copy);
                }
                kept.push(copy);
                assert(map_of(kept@) =~= map_of(self.entries@.subrange(0, i + 1)).remove(key@));
            } else {
                assert(map_of(kept@) =~= map_of(self.entries@.subrange(0, i + 1)).remove(key@));
            }
            i = i + 1;
        }
        assert(self.entries@.subrange(0, self.entries@.len() as int) =~= self.entries@);
        self.entries = kept;
        found
    }

    /// Stores `value` under `key`, replacing and returning the value that was
    /// there.
    pub fn insert(&mut self, key: String, value: String) -> (r: Option<String>)
        ensures
            final(self)@ == old(self)@.insert(key@, value@),
            match r {
                Some(v) => old(self)@.contains_key(key@) && old(self)@[key@] == v@,
                None => !old(self)@.contains_key(key@),
            },
    {
        let previous = self.remove(key.as_str());
        let entry = (key, value);
        proof {
            lemma_map_of_push(self.entries@, entry);
        }
        self.entries.push(entry);
        assert(self@ =~= old(self)@.insert(key@, value@));
        previous
    }
}

} // verus!
