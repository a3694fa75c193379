//! The document: every benchmark set and every meta set, each under a
//! unique name.
use vstd::prelude::*;

use crate::order::{sorted_members, sorted_of, strictly_sorted};
use crate::records::{BenchmarkSet, BenchmarkSetView};

verus! {

/// What a document holds: benchmark sets by name, and for each meta set
/// its member names, which a well-formed document keeps in increasing order
/// and walks in that order.
pub struct TopLevelView {
    pub benchmark_sets: Map<Seq<char>, BenchmarkSetView>,
    pub meta_sets: Map<Seq<char>, Seq<Seq<char>>>,
}

/// The names of a sequence of strings.
pub open spec fn names(v: Seq<String>) -> Seq<Seq<char>> {
    v.map_values(|s: String| s@)
}

/// The keys of a sequence of named entries.
pub open spec fn keys_of<V>(entries: Seq<(String, V)>) -> Seq<Seq<char>> {
    entries.map_values(|e: (String, V)| e.0@)
}

/// Where the entry named `k` stands.
pub open spec fn entry_index<V>(entries: Seq<(String, V)>, k: Seq<char>) -> int {
    choose|i: int| 0 <= i < entries.len() && entries[i].0@ == k
}

/// Named benchmark-set entries as a map from name to set.
pub open spec fn sets_view(entries: Seq<(String, BenchmarkSet)>) -> Map<Seq<char>, BenchmarkSetView> {
    Map::new(
        |k: Seq<char>| keys_of(entries).contains(k),
        |k: Seq<char>| entries[entry_index(entries, k)].1@,
    )
}

/// Named meta-set entries as a map from name to member names.
pub open spec fn metas_view(entries: Seq<(String, Vec<String>)>) -> Map<Seq<char>, Seq<Seq<char>>> {
    Map::new(
        |k: Seq<char>| keys_of(entries).contains(k),
        |k: Seq<char>| names(entries[entry_index(entries, k)].1@),
    )
}

/// The entry named `k` is the one at `i`, where names are unique.
pub proof fn lemma_entry_index<V>(entries: Seq<(String, V)>, i: int)
    requires
        keys_of(entries).no_duplicates(),
        0 <= i < entries.len(),
    ensures
        entry_index(entries, entries[i].0@) == i,
        keys_of(entries).contains(entries[i].0@),
{
    let k = entries[i].0@;
    assert(keys_of(entries)[i] == k);
    let j = entry_index(entries, k);
    assert(keys_of(entries)[j] == k);
}

/// The entry that `entry_index` picks for a present name bears that name.
pub proof fn lemma_entry_of<V>(entries: Seq<(String, V)>, k: Seq<char>)
    requires
        keys_of(entries).contains(k),
    ensures
        0 <= entry_index(entries, k) < entries.len(),
        entries[entry_index(entries, k)].0@ == k,
{
    let j = choose|j: int| 0 <= j < entries.len() && keys_of(entries)[j] == k;
    assert(entries[j].0@ == k);
}

/// Appending a name not yet present keeps names unique.
pub proof fn lemma_push_unique(s: Seq<Seq<char>>, x: Seq<char>)
    requires
        s.no_duplicates(),
        !s.contains(x),
    ensures
        s.push(x).no_duplicates(),
{
    let t = s.push(x);
    assert forall|i: int, j: int| 0 <= i < t.len() && 0 <= j < t.len() && i != j implies t[i] != t[j] by {
        if i < s.len() && j == s.len() {
            assert(s[i] == t[i]);
        }
        if j < s.len() && i == s.len() {
            assert(s[j] == t[j]);
        }
    }
}

/// Replacing an entry by one of the same name keeps every name where it was.
pub proof fn lemma_replace_entry<V>(entries: Seq<(String, V)>, i: int, e: (String, V))
    requires
        keys_of(entries).no_duplicates(),
        0 <= i < entries.len(),
        entries[i].0@ == e.0@,
    ensures
        keys_of(entries.update(i, e)) == keys_of(entries),
        forall|k: Seq<char>|
            keys_of(entries).contains(k) ==> #[trigger] entry_index(entries.update(i, e), k)
                == entry_index(entries, k),
{
    let new = entries.update(i, e);
    assert(keys_of(new) =~= keys_of(entries));
    assert forall|k: Seq<char>| keys_of(entries).contains(k) implies #[trigger] entry_index(new, k)
        == entry_index(entries, k) by {
        let j0 = choose|j: int| 0 <= j < entries.len() && keys_of(entries)[j] == k;
        assert(entries[j0].0@ == k);
        let j = entry_index(entries, k);
        let jn = entry_index(new, k);
        assert(new[j].0@ == k);
        assert(keys_of(new)[jn] == k);
        assert(keys_of(new)[j] == k);
    }
}

/// Appending an entry under a new name keeps every other name where it was.
pub proof fn lemma_append_entry<V>(entries: Seq<(String, V)>, e: (String, V))
    requires
        keys_of(entries).no_duplicates(),
        !keys_of(entries).contains(e.0@),
    ensures
        keys_of(entries.push(e)) == keys_of(entries).push(e.0@),
        keys_of(entries.push(e)).no_duplicates(),
        entry_index(entries.push(e), e.0@) == entries.len(),
        forall|k: Seq<char>|
            keys_of(entries).contains(k) ==> #[trigger] entry_index(entries.push(e), k)
                == entry_index(entries, k),
{
    let new = entries.push(e);
    assert(keys_of(new) =~= keys_of(entries).push(e.0@));
    lemma_entry_index(new, entries.len() as int);
    assert forall|k: Seq<char>| keys_of(entries).contains(k) implies #[trigger] entry_index(new, k)
        == entry_index(entries, k) by {
        let j0 = choose|j: int| 0 <= j < entries.len() && keys_of(entries)[j] == k;
        assert(entries[j0].0@ == k);
        let j = entry_index(entries, k);
        let jn = entry_index(new, k);
        assert(new[j].0@ == k);
        assert(keys_of(new)[jn] == k);
        assert(keys_of(new)[j] == k);
    }
}

/// All benchmark sets and meta sets, each kept under a unique name (see
/// `wf`), in the order in which they were added.
#[derive(Debug)]
pub struct TopLevel {
    pub benchmark_sets: Vec<(String, BenchmarkSet)>,
    pub meta_sets: Vec<(String, Vec<String>)>,
}

impl View for TopLevel {
    type V = TopLevelView;

    open spec fn view(&self) -> TopLevelView {
        TopLevelView {
            benchmark_sets: sets_view(self.benchmark_sets@),
            meta_sets: metas_view(self.meta_sets@),
        }
    }
}

impl TopLevel {
    /// Names are unique in each collection, and the members of each meta set
    /// are unique and in increasing order.
    pub open spec fn wf(&self) -> bool {
        &&& keys_of(self.benchmark_sets@).no_duplicates()
        &&& keys_of(self.meta_sets@).no_duplicates()
        &&& forall|i: int|
            0 <= i < self.meta_sets@.len() ==> strictly_sorted(#[trigger] names(self.meta_sets@[i].1@))
    }

    /// A document with no benchmark sets and no meta sets.
    pub fn new() -> (r: TopLevel)
        ensures
            r.wf(),
            r@.benchmark_sets.is_empty(),
            r@.meta_sets.is_empty(),
    {
        let r = TopLevel { benchmark_sets: Vec::new(), meta_sets: Vec::new() };
        assert(r@.benchmark_sets =~= Map::empty());
        assert(r@.meta_sets =~= Map::empty());
        r
    }

    /// Whether a benchmark set is stored under `name`.
    pub fn contains_benchmark_set(&self, name: &str) -> (r: bool)
        ensures
            r == self@.benchmark_sets.contains_key(name@),
    {
        let key = name.to_owned();
        match position_of(&self.benchmark_sets, &key) {
            Some(i) => {
                assert(keys_of(self.benchmark_sets@)[i as int] == key@);
                true
            },
            None => false,
        }
    }

    /// Whether a meta set is stored under `name`.
    pub fn contains_meta_set(&self, name: &str) -> (r: bool)
        ensures
            r == self@.meta_sets.contains_key(name@),
    {
        let key = name.to_owned();
        match position_of(&self.meta_sets, &key) {
            Some(i) => {
                assert(keys_of(self.meta_sets@)[i as int] == key@);
                true
            },
            None => false,
        }
    }

    /// A copy of the benchmark set stored under `name`, if there is one.
    pub fn benchmark_set(&self, name: &str) -> (r: Option<BenchmarkSet>)
        requires
            self.wf(),
        ensures
            r is Some <==> self@.benchmark_sets.contains_key(name@),
            r matches Some(s) ==> s@ == self@.benchmark_sets[name@],
    {
        let key = name.to_owned();
        match position_of(&self.benchmark_sets, &key) {
            Some(i) => {
                proof {
                    lemma_entry_index(self.benchmark_sets@, i as int);
                }
                Some(self.benchmark_sets[i].1.clone())
            },
            None => None,
        }
    }

    /// A copy of the members of the meta set stored under `name`, if there
    /// is one.
    pub fn meta_set(&self, name: &str) -> (r: Option<Vec<String>>)
        requires
            self.wf(),
        ensures
            r is Some <==> self@.meta_sets.contains_key(name@),
            r matches Some(m) ==> names(m@) == self@.meta_sets[name@],
    {
        let key = name.to_owned();
        match position_of(&self.meta_sets, &key) {
            Some(i) => {
                proof {
                    lemma_entry_index(self.meta_sets@, i as int);
                }
                Some(copy_strings(&self.meta_sets[i].1))
            },
            None => None,
        }
    }

    /// Stores `set` under `name`, replacing what was stored there.
    pub fn insert_benchmark_set(&mut self, name: String, set: BenchmarkSet)
        requires
            old(self).wf(),
        ensures
            final(self).wf(),
            final(self)@.benchmark_sets == old(self)@.benchmark_sets.insert(name@, set@),
            final(self)@.meta_sets == old(self)@.meta_sets,
    {
        let ghost old_entries = self.benchmark_sets@;
        let ghost e = (name, set);
        let ghost mut at: int = 0;
        match position_of(&self.benchmark_sets, &name) {
            Some(i) => {
                proof {
                    at = i as int;
                    lemma_replace_entry(old_entries, i as int, e);
                    lemma_entry_index(old_entries.update(i as int, e), i as int);
                }
                self.benchmark_sets.set(i, (name, set));
            },
            None => {
                proof {
                    lemma_append_entry(old_entries, e);
                    at = old_entries.len() as int;
                }
                self.benchmark_sets.push((name, set));
            },
        }
        proof {
            let new = self.benchmark_sets@;
            assert(new[at] == e);
            assert(keys_of(new)[at] == e.0@);
            assert forall|k: Seq<char>| keys_of(old_entries).contains(k) && k != e.0@ implies
                #[trigger] new[entry_index(new, k)] == old_entries[entry_index(old_entries, k)] by {
                lemma_entry_of(old_entries, k);
            }
            assert forall|k: Seq<char>| #[trigger] keys_of(new).contains(k) <==> (keys_of(old_entries).contains(k) || k == e.0@) by {
                if keys_of(new).contains(k) && k != e.0@ {
                    lemma_entry_of(new, k);
                    if entry_index(new, k) < old_entries.len() {
                        assert(keys_of(old_entries)[entry_index(new, k)] == k);
                    }
                }
                if keys_of(old_entries).contains(k) {
                    lemma_entry_of(old_entries, k);
                    assert(keys_of(new)[entry_index(old_entries, k)] == k);
                }
            }
        }
        assert(self@.benchmark_sets =~= sets_view(old_entries).insert(e.0@, e.1@));
    }

    /// Stores the meta set `members` under `name`, replacing what was stored
    /// there. The members are kept once each, in increasing order.
    pub fn insert_meta_set(&mut self, name: String, members: Vec<String>)
        requires
            old(self).wf(),
        ensures
            final(self).wf(),
            final(self)@.meta_sets == old(self)@.meta_sets.insert(
                name@,
                sorted_of(names(members@).to_set()),
            ),
            final(self)@.benchmark_sets == old(self)@.benchmark_sets,
    {
        let unique = sorted_members(&members);
        let ghost old_entries = self.meta_sets@;
        let ghost e = (name, unique);
        let ghost mut at: int = 0;
        match position_of(&self.meta_sets, &name) {
            Some(i) => {
                proof {
                    at = i as int;
                    lemma_replace_entry(old_entries, i as int, e);
                    lemma_entry_index(old_entries.update(i as int, e), i as int);
                }
                self.meta_sets.set(i, (name, unique));
            },
            None => {
                proof {
                    lemma_append_entry(old_entries, e);
                    at = old_entries.len() as int;
                }
                self.meta_sets.push((name, unique));
            },
        }
        proof {
            let new = self.meta_sets@;
            assert(new[at] == e);
            assert(keys_of(new)[at] == e.0@);
            assert forall|k: Seq<char>| keys_of(old_entries).contains(k) && k != e.0@ implies
                #[trigger] new[entry_index(new, k)] == old_entries[entry_index(old_entries, k)] by {
                lemma_entry_of(old_entries, k);
            }
            assert forall|k: Seq<char>| #[trigger] keys_of(new).contains(k) <==> (keys_of(old_entries).contains(k) || k == e.0@) by {
                if keys_of(new).contains(k) && k != e.0@ {
                    lemma_entry_of(new, k);
                    if entry_index(new, k) < old_entries.len() {
                        assert(keys_of(old_entries)[entry_index(new, k)] == k);
                    }
                }
                if keys_of(old_entries).contains(k) {
                    lemma_entry_of(old_entries, k);
                    assert(keys_of(new)[entry_index(old_entries, k)] == k);
                }
            }
        }
        assert(self@.meta_sets =~= metas_view(old_entries).insert(e.0@, names(e.1@)));
    }

    /// The names of the benchmark sets, in the order in which they were added.
    pub fn benchmark_set_names(&self) -> (r: Vec<String>)
        ensures
            names(r@) == keys_of(self.benchmark_sets@),
            names(r@).to_set() == self@.benchmark_sets.dom(),
    {
        let mut r: Vec<String> = Vec::new();
        let mut i: usize = 0;
        while i < self.benchmark_sets.len()
            invariant
                i <= self.benchmark_sets@.len(),
                r@.len() == i,
                forall|j: int| 0 <= j < i ==> r@[j]@ == #[trigger] self.benchmark_sets@[j].0@,
            decreases self.benchmark_sets@.len() - i,
        {
            r.push(self.benchmark_sets[i].0.clone());
            i = i + 1;
        }
        assert(names(r@) =~= keys_of(self.benchmark_sets@));
        assert(names(r@).to_set() =~= self@.benchmark_sets.dom());
        r
    }

    /// The names of the meta sets, in the order in which they were added.
    pub fn meta_set_names(&self) -> (r: Vec<String>)
        ensures
            names(r@) == keys_of(self.meta_sets@),
            names(r@).to_set() == self@.meta_sets.dom(),
    {
        let mut r: Vec<String> = Vec::new();
        let mut i: usize = 0;
        while i < self.meta_sets.len()
            invariant
                i <= self.meta_sets@.len(),
                r@.len() == i,
                forall|j: int| 0 <= j < i ==> r@[j]@ == #[trigger] self.meta_sets@[j].0@,
            decreases self.meta_sets@.len() - i,
        {
            r.push(self.meta_sets[i].0.clone());
            i = i + 1;
        }
        assert(names(r@) =~= keys_of(self.meta_sets@));
        assert(names(r@).to_set() =~= self@.meta_sets.dom());
        r
    }
}

impl Default for TopLevel {
    fn default() -> (r: TopLevel)
        ensures
            r.wf(),
            r@.benchmark_sets.is_empty(),
            r@.meta_sets.is_empty(),
    {
        TopLevel::new()
    }
}

/// Where the entry named `key` stands, if there is one.
pub fn position_of<V>(entries: &Vec<(String, V)>, key: &String) -> (r: Option<usize>)
    ensures
        match r {
            Some(i) => i < entries@.len() && entries@[i as int].0@ == key@ && keys_of(
                entries@,
            ).contains(key@),
            None => !keys_of(entries@).contains(key@),
        },
{
    let mut i: usize = 0;
    while i < entries.len()
        invariant
            i <= entries@.len(),
            forall|j: int| 0 <= j < i ==> entries@[j].0@ != key@,
        decreases entries@.len() - i,
    {
        if entries[i].0 == *key {
            assert(keys_of(entries@)[i as int] == key@);
            return Some(i);
        }
        i = i + 1;
    }
    proof {
        if keys_of(entries@).contains(key@) {
            let j = choose|j: int| 0 <= j < entries@.len() && keys_of(entries@)[j] == key@;
            assert(entries@[j].0@ == key@);
        }
    }
    None
}

/// A copy of a list of strings.
pub fn copy_strings(v: &Vec<String>) -> (r: Vec<String>)
    ensures
        r@ == v@,
{
    let mut r: Vec<String> = Vec::new();
    let mut i: usize = 0;
    while i < v.len()
        invariant
            i <= v@.len(),
            r@ == v@.subrange(0, i as int),
        decreases v@.len() - i,
    {
        r.push(v[i].clone());
        i = i + 1;
    }
    assert(r@ =~= v@);
    r
}

} // verus!
