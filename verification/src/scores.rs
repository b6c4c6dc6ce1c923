use vstd::prelude::*;

verus! {

/// A score table: a mapping from names to integer scores, held as a vector
/// of pairs whose keys are pairwise distinct.
pub struct ScoreMap {
    entries: Vec<(String, i32)>,
}

/// No two entries share a key.
spec fn keys_distinct(s: Seq<(String, i32)>) -> bool {
    forall|j: int, k: int| 0 <= j < k < s.len() ==> s[j].0@ != s[k].0@
}

/// The mapping that a sequence of key/value pairs denotes, later entries
/// overriding earlier ones.
spec fn map_of(s: Seq<(String, i32)>) -> Map<Seq<char>, i32>
    decreases s.len(),
{
    if s.len() == 0 {
        Map::empty()
    } else {
        map_of(s.drop_last()).insert(s.last().0@, s.last().1)
    }
}

/// A key is in the denoted mapping exactly when some entry carries it.
proof fn lemma_map_of_contains(s: Seq<(String, i32)>, k: Seq<char>)
    ensures
        map_of(s).contains_key(k) <==> exists|j: int| 0 <= j < s.len() && s[j].0@ == k,
    decreases s.len(),
{
    if s.len() > 0 {
        lemma_map_of_contains(s.drop_last(), k);
        if s.last().0@ == k {
            assert(s[s.len() - 1].0@ == k);
        } else if exists|j: int| 0 <= j < s.len() - 1 && s.drop_last()[j].0@ == k {
            let j = choose|j: int| 0 <= j < s.len() - 1 && s.drop_last()[j].0@ == k;
            assert(s[j].0@ == k);
        } else if exists|j: int| 0 <= j < s.len() && s[j].0@ == k {
            let j = choose|j: int| 0 <= j < s.len() && s[j].0@ == k;
            assert(j < s.len() - 1 ==> s.drop_last()[j].0@ == k);
        }
    }
}

/// With distinct keys, the entry at any position gives that key's value in
/// the denoted mapping.
proof fn lemma_map_of_at(s: Seq<(String, i32)>, j: int)
    requires
        keys_distinct(s),
        0 <= j < s.len(),
    ensures
        map_of(s).contains_key(s[j].0@),
        map_of(s)[s[j].0@] == s[j].1,
    decreases s.len(),
{
    if j < s.len() - 1 {
        assert(s.drop_last()[j] == s[j]);
        lemma_map_of_at(s.drop_last(), j);
    }
}

/// Replacing the entry at a position by one with the same key denotes the
/// same mapping as inserting that pair, and keeps the keys distinct.
proof fn lemma_map_of_update(s: Seq<(String, i32)>, i: int, p: (String, i32))
    requires
        keys_distinct(s),
        0 <= i < s.len(),
        p.0@ == s[i].0@,
    ensures
        map_of(s.update(i, p)) == map_of(s).insert(p.0@, p.1),
        keys_distinct(s.update(i, p)),
    decreases s.len(),
{
    let t = s.update(i, p);
    assert forall|j: int, k: int| 0 <= j < k < t.len() implies t[j].0@ != t[k].0@ by {
        assert(s[j].0@ != s[k].0@);
    }
    if i == s.len() - 1 {
        assert(t.drop_last() =~= s.drop_last());
        assert(map_of(s).insert(p.0@, p.1) =~= map_of(s.drop_last()).insert(p.0@, p.1));
    } else {
        assert(t.drop_last() =~= s.drop_last().update(i, p));
        assert(t.last() == s.last());
        lemma_map_of_update(s.drop_last(), i, p);
        assert(s[i].0@ != s.last().0@);
        assert(map_of(s.drop_last()).insert(p.0@, p.1).insert(s.last().0@, s.last().1)
            =~= map_of(s.drop_last()).insert(s.last().0@, s.last().1).insert(p.0@, p.1));
    }
}

/// Appending an entry with a fresh key denotes insertion of that pair, and
/// keeps the keys distinct.
proof fn lemma_map_of_push(s: Seq<(String, i32)>, p: (String, i32))
    requires
        keys_distinct(s),
        forall|j: int| 0 <= j < s.len() ==> s[j].0@ != p.0@,
    ensures
        map_of(s.push(p)) == map_of(s).insert(p.0@, p.1),
        keys_distinct(s.push(p)),
{
    let t = s.push(p);
    assert(t.drop_last() =~= s);
    assert(t.last() == p);
    assert forall|j: int, k: int| 0 <= j < k < t.len() implies t[j].0@ != t[k].0@ by {
        if k < t.len() - 1 {
            assert(s[j].0@ != s[k].0@);
        } else {
            assert(s[j].0@ != p.0@);
        }
    }
}

/// With distinct keys, the denoted mapping has exactly one key per entry.
proof fn lemma_map_of_dom_len(s: Seq<(String, i32)>)
    requires
        keys_distinct(s),
    ensures
        map_of(s).dom().finite(),
        map_of(s).dom().len() == s.len(),
    decreases s.len(),
{
    if s.len() > 0 {
        lemma_map_of_dom_len(s.drop_last());
        lemma_map_of_contains(s.drop_last(), s.last().0@);
        assert(forall|j: int| 0 <= j < s.len() - 1 ==> s.drop_last()[j].0@ != s.last().0@);
        assert(!map_of(s.drop_last()).contains_key(s.last().0@));
        assert(map_of(s).dom() =~= map_of(s.drop_last()).dom().insert(s.last().0@));
    }
}

impl View for ScoreMap {
    type V = Map<Seq<char>, i32>;

    closed spec fn view(&self) -> Map<Seq<char>, i32> {
        map_of(self.entries@)
    }
}

impl ScoreMap {
    /// Every key appears at most once in the underlying vector.
    pub closed spec fn wf(self) -> bool {
        keys_distinct(self.entries@)
    }

    /// An empty score table.
    pub fn new() -> (r: ScoreMap)
        ensures
            r.wf(),
            r@ == Map::<Seq<char>, i32>::empty(),
    {
        ScoreMap { entries: Vec::new() }
    }

    /// Binds the key to the value, replacing any score the key already had.
    pub fn insert(&mut self, key: &str, value: i32)
        requires
            old(self).wf(),
        ensures
            final(self).wf(),
            final(self)@ == old(self)@.insert(key@, value),
    {
        let owned = String::from_str(key);
        let mut i: usize = 0;
        while i < self.entries.len()
            invariant
                keys_distinct(self.entries@),
                self.entries@ == old(self).entries@,
                owned@ == key@,
                i <= self.entries@.len(),
                forall|j: int| 0 <= j < i ==> self.entries@[j].0@ != key@,
            decreases self.entries@.len() - i,
        {
            if self.entries[i].0 == owned {
                proof {
                    lemma_map_of_update(old(self).entries@, i as int, (owned, value));
                }
                self.entries.set(i, (owned, value));
                return;
            }
            i = i + 1;
        }
        proof {
            lemma_map_of_push(old(self).entries@, (owned, value));
        }
        self.entries.push((owned, value));
    }

    /// The score bound to the key, or `None` when the key is absent.
    pub fn get(&self, key: &str) -> (r: Option<i32>)
        requires
            self.wf(),
        ensures
            match r {
                Some(v) => self@.contains_key(key@) && v == self@[key@],
                None => !self@.contains_key(key@),
            },
    {
        let owned = String::from_str(key);
        let mut i: usize = 0;
        while i < self.entries.len()
            invariant
                keys_distinct(self.entries@),
                owned@ == key@,
                i <= self.entries@.len(),
                forall|j: int| 0 <= j < i ==> self.entries@[j].0@ != key@,
            decreases self.entries@.len() - i,
        {
            if self.entries[i].0 == owned {
                proof {
                    lemma_map_of_at(self.entries@, i as int);
                }
                return Some(self.entries[i].1);
            }
            i = i + 1;
        }
        proof {
            lemma_map_of_contains(self.entries@, key@);
        }
        None
    }

    /// How many pairs the table holds.
    pub fn len(&self) -> (r: usize)
        requires
            self.wf(),
        ensures
            r == self@.dom().len(),
    {
        proof {
            lemma_map_of_dom_len(self.entries@);
        }
        self.entries.len()
    }

    /// The pairs of the table, in their storage order: each carries the score
    /// its key is bound to, every key of the table appears, and none twice.
    pub fn pairs(&self) -> (r: &Vec<(String, i32)>)
        requires
            self.wf(),
        ensures
            r@.len() == self@.dom().len(),
            forall|j: int| 0 <= j < r@.len() ==> self@.contains_key((#[trigger] r@[j]).0@),
            forall|j: int| 0 <= j < r@.len() ==> self@[(#[trigger] r@[j]).0@] == r@[j].1,
            forall|j: int, k: int| 0 <= j < k < r@.len() ==> r@[j].0@ != r@[k].0@,
    {
        proof {
            lemma_map_of_dom_len(self.entries@);
            assert forall|j: int| 0 <= j < self.entries@.len() implies self@.contains_key(
                (#[trigger] self.entries@[j]).0@,
            ) && self@[self.entries@[j].0@] == self.entries@[j].1 by {
                lemma_map_of_at(self.entries@, j);
            }
        }
        &self.entries
    }
}

/// The demonstration's populated score table, holding exactly the three
/// fixed pairs.
pub fn score_table() -> (r: ScoreMap)
    ensures
        r.wf(),
        r@ == map!["Rust"@ => 95i32, "Python"@ => 90i32, "JavaScript"@ => 85i32],
        r@.dom().len() == 3,
{
    let mut t = ScoreMap::new();
    t.insert("Rust", 95);
    t.insert("Python", 90);
    t.insert("JavaScript", 85);
    proof {
        reveal_strlit("Rust");
        reveal_strlit("Python");
        reveal_strlit("JavaScript");
        assert(t@ =~= map!["Rust"@ => 95i32, "Python"@ => 90i32, "JavaScript"@ => 85i32]);
        assert(t@.dom() =~= set!["Rust"@, "Python"@, "JavaScript"@]);
        assert("Rust"@.len() == 4);
        assert("Python"@.len() == 6);
        assert("JavaScript"@.len() == 10);
        let base = Set::<Seq<char>>::empty();
        vstd::set::axiom_set_insert_len(base, "Rust"@);
        vstd::set::axiom_set_insert_len(base.insert("Rust"@), "Python"@);
        vstd::set::axiom_set_insert_len(base.insert("Rust"@).insert("Python"@), "JavaScript"@);
    }
    t
}

} // verus!
