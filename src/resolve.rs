//! Meta-set resolution: expanding a meta set, through the meta sets it
//! names, into the benchmark sets and the meta sets it reaches.
//!
//! The walk is depth first. A meta set is marked visited before its members
//! are walked, so a cycle or a shared member ends the walk there. A name that
//! is neither a meta set nor a benchmark set is a leaf that contributes
//! nothing.
use vstd::prelude::*;

use crate::document::{
    TopLevel, TopLevelView, entry_index, position_of, keys_of, lemma_entry_index, lemma_entry_of,
    lemma_push_unique, names, sets_view,
};
use crate::records::{BenchmarkSet, BenchmarkSetView, ProcedureError};

verus! {

/// What walking from `key` gives, with `seen` visited already: the visited
/// meta sets afterwards, the meta sets finished on the way (each after all
/// that it leads to), and every name taken up on the way.
///
/// `fuel` bounds the depth; a walk from an empty `seen` with more fuel than
/// there are meta sets never runs out of it.
pub open spec fn walk(doc: TopLevelView, key: Seq<char>, seen: Seq<Seq<char>>, fuel: nat) -> (
    Seq<Seq<char>>,
    Seq<Seq<char>>,
    Seq<Seq<char>>,
)
    decreases fuel, 0int,
{
    if seen.contains(key) {
        (seen, seq![], seq![])
    } else if !doc.meta_sets.contains_key(key) {
        (seen, seq![], seq![key])
    } else if fuel == 0 {
        (seen, seq![], seq![])
    } else {
        let r = walk_members(doc, doc.meta_sets[key], 0, seen.push(key), (fuel - 1) as nat);
        (r.0, r.1.push(key), r.2.push(key))
    }
}

/// Walking the members of a meta set from the `i`-th on, one after another.
pub open spec fn walk_members(
    doc: TopLevelView,
    members: Seq<Seq<char>>,
    i: int,
    seen: Seq<Seq<char>>,
    fuel: nat,
) -> (Seq<Seq<char>>, Seq<Seq<char>>, Seq<Seq<char>>)
    decreases fuel, members.len() + 1 - i,
{
    if i < 0 || i >= members.len() {
        (seen, seq![], seq![])
    } else {
        let w = walk(doc, members[i], seen, fuel);
        let r = walk_members(doc, members, i + 1, w.0, fuel);
        (r.0, w.1 + r.1, w.2 + r.2)
    }
}

/// The number of meta sets in a document.
pub open spec fn meta_count(doc: TopLevelView) -> nat {
    doc.meta_sets.dom().len()
}

/// The whole walk from `key`.
pub open spec fn walk_from(doc: TopLevelView, key: Seq<char>) -> (
    Seq<Seq<char>>,
    Seq<Seq<char>>,
    Seq<Seq<char>>,
) {
    walk(doc, key, seq![], meta_count(doc) + 1)
}

/// The meta sets reachable from `key`, each once, each after every meta set
/// that it leads to.
pub open spec fn resolve_metas(doc: TopLevelView, key: Seq<char>) -> Seq<Seq<char>> {
    walk_from(doc, key).1
}

/// The benchmark sets reachable from `key`, by name.
pub open spec fn resolve_benchmarks(doc: TopLevelView, key: Seq<char>) -> Map<
    Seq<char>,
    BenchmarkSetView,
> {
    let reached = walk_from(doc, key).2;
    Map::new(
        |k: Seq<char>| reached.contains(k) && doc.benchmark_sets.contains_key(k),
        |k: Seq<char>| doc.benchmark_sets[k],
    )
}

/// The visited names are meta sets, each visited once.
pub open spec fn seen_ok(doc: TopLevelView, seen: Seq<Seq<char>>) -> bool {
    &&& seen.no_duplicates()
    &&& forall|s: Seq<char>| #[trigger] seen.contains(s) ==> doc.meta_sets.contains_key(s)
}

/// The meta sets of a well-formed document are as many as its entries.
proof fn lemma_meta_count(doc: &TopLevel)
    requires
        doc.wf(),
    ensures
        doc@.meta_sets.dom() == keys_of(doc.meta_sets@).to_set(),
        meta_count(doc@) == doc.meta_sets@.len(),
{
    assert(doc@.meta_sets.dom() =~= keys_of(doc.meta_sets@).to_set());
    keys_of(doc.meta_sets@).unique_seq_to_set();
}

/// A meta set not yet visited leaves room under the count of meta sets.
proof fn lemma_room(doc: &TopLevel, seen: Seq<Seq<char>>, key: Seq<char>)
    requires
        doc.wf(),
        seen_ok(doc@, seen),
        !seen.contains(key),
        doc@.meta_sets.contains_key(key),
    ensures
        seen.len() + 1 <= meta_count(doc@),
        seen_ok(doc@, seen.push(key)),
{
    lemma_meta_count(doc);
    let t = seen.push(key);
    lemma_push_unique(seen, key);
    t.unique_seq_to_set();
    assert forall|s: Seq<char>| #[trigger] t.contains(s) implies doc@.meta_sets.contains_key(s) by {
        let j = choose|j: int| 0 <= j < t.len() && t[j] == s;
        if j < seen.len() {
            assert(seen[j] == s);
            assert(seen.contains(s));
        }
    }
    assert(t.to_set().subset_of(doc@.meta_sets.dom()));
    vstd::set_lib::lemma_len_subset(t.to_set(), doc@.meta_sets.dom());
}

/// Membership in a concatenation.
proof fn lemma_contains_add(a: Seq<Seq<char>>, b: Seq<Seq<char>>, k: Seq<char>)
    ensures
        (a + b).contains(k) <==> (a.contains(k) || b.contains(k)),
{
    if (a + b).contains(k) {
        let j = choose|j: int| 0 <= j < (a + b).len() && (a + b)[j] == k;
        if j < a.len() {
            assert(a[j] == k);
        } else {
            assert(b[j - a.len()] == k);
        }
    }
    if a.contains(k) {
        let j = choose|j: int| 0 <= j < a.len() && a[j] == k;
        assert((a + b)[j] == k);
    }
    if b.contains(k) {
        let j = choose|j: int| 0 <= j < b.len() && b[j] == k;
        assert((a + b)[a.len() + j] == k);
    }
}

fn walk_meta_recursive_for_metas(
    key: String,
    top_level: &TopLevel,
    seen_keys: &mut Vec<String>,
    current_meta_sets: &mut Vec<String>,
    Ghost(fuel): Ghost<nat>,
)
    requires
        top_level.wf(),
        seen_ok(top_level@, names(old(seen_keys)@)),
        fuel + old(seen_keys)@.len() > meta_count(top_level@),
    ensures
        seen_ok(top_level@, names(final(seen_keys)@)),
        final(seen_keys)@.len() >= old(seen_keys)@.len(),
        names(final(seen_keys)@) == walk(top_level@, key@, names(old(seen_keys)@), fuel).0,
        names(final(current_meta_sets)@) == names(old(current_meta_sets)@) + walk(
            top_level@,
            key@,
            names(old(seen_keys)@),
            fuel,
        ).1,
    decreases fuel,
{
    let ghost doc = top_level@;
    let ghost seen0 = names(seen_keys@);
    let ghost out0 = names(current_meta_sets@);
    let mut seen = false;
    let mut j: usize = 0;
    while j < seen_keys.len()
        invariant
            j <= seen_keys@.len(),
            seen == exists|t: int| 0 <= t < j && (#[trigger] seen_keys@[t])@ == key@,
        decreases seen_keys@.len() - j,
    {
        if seen_keys[j] == key {
            seen = true;
        }
        j = j + 1;
    }
    proof {
        if seen {
            let t = choose|t: int| 0 <= t < j && (#[trigger] seen_keys@[t])@ == key@;
            assert(seen0[t] == key@);
        }
        if seen0.contains(key@) {
            let t = choose|t: int| 0 <= t < seen0.len() && seen0[t] == key@;
            assert(seen_keys@[t]@ == key@);
        }
    }
    if seen {
        assert(out0 + seq![] =~= out0);
        return;
    }
    let position = position_of(&top_level.meta_sets, &key);
    let i = match position {
        Some(i) => i,
        None => {
            assert(out0 + seq![] =~= out0);
            return;
        },
    };
    proof {
        lemma_entry_index(top_level.meta_sets@, i as int);
        lemma_room(top_level, seen0, key@);
    }
    let members = &top_level.meta_sets[i].1;
    let ghost ms = names(members@);
    assert(ms == doc.meta_sets[key@]);
    let ghost f = (fuel - 1) as nat;
    let ghost s1 = seen0.push(key@);
    let ghost total = walk_members(doc, ms, 0, s1, f);
    seen_keys.push(key.clone());
    assert(names(seen_keys@) =~= s1);
    let ghost mut acc: Seq<Seq<char>> = seq![];
    let mut m: usize = 0;
    while m < members.len()
        invariant
            top_level.wf(),
            doc == top_level@,
            f < fuel,
            ms == names(members@),
            m <= members@.len(),
            seen_ok(doc, names(seen_keys@)),
            seen_keys@.len() >= s1.len(),
            f + seen_keys@.len() > meta_count(doc),
            names(current_meta_sets@) == out0 + acc,
            total.0 == walk_members(doc, ms, m as int, names(seen_keys@), f).0,
            total.1 == acc + walk_members(doc, ms, m as int, names(seen_keys@), f).1,
        decreases members@.len() - m,
    {
        let ghost before = names(seen_keys@);
        let ghost w = walk(doc, ms[m as int], before, f);
        let ghost rest = walk_members(doc, ms, m + 1, w.0, f);
        let ghost out_before = names(current_meta_sets@);
        walk_meta_recursive_for_metas(
            members[m].clone(),
            top_level,
            seen_keys,
            current_meta_sets,
            Ghost(f),
        );
        proof {
            assert(names(current_meta_sets@) == out_before + w.1);
            assert(acc + (w.1 + rest.1) =~= (acc + w.1) + rest.1);
            assert((out0 + acc) + w.1 =~= out0 + (acc + w.1));
            acc = acc + w.1;
        }
        m = m + 1;
    }
    current_meta_sets.push(key);
    proof {
        assert(acc + seq![] =~= acc);
        assert(names(current_meta_sets@) =~= (out0 + acc).push(key@));
        assert((out0 + acc).push(key@) =~= out0 + acc.push(key@));
    }
}

/// The found benchmark sets are those of the document, each under its name.
pub open spec fn found_ok(doc: TopLevelView, found: Seq<(String, BenchmarkSet)>) -> bool {
    &&& keys_of(found).no_duplicates()
    &&& forall|i: int|
        0 <= i < found.len() ==> doc.benchmark_sets.contains_key(#[trigger] found[i].0@)
            && found[i].1@ == doc.benchmark_sets[found[i].0@]
}

fn walk_meta_recursive_for_benchmarks(
    key: String,
    top_level: &TopLevel,
    seen_keys: &mut Vec<String>,
    current_benchmark_sets: &mut Vec<(String, BenchmarkSet)>,
    Ghost(fuel): Ghost<nat>,
)
    requires
        top_level.wf(),
        seen_ok(top_level@, names(old(seen_keys)@)),
        fuel + old(seen_keys)@.len() > meta_count(top_level@),
        found_ok(top_level@, old(current_benchmark_sets)@),
    ensures
        seen_ok(top_level@, names(final(seen_keys)@)),
        final(seen_keys)@.len() >= old(seen_keys)@.len(),
        names(final(seen_keys)@) == walk(top_level@, key@, names(old(seen_keys)@), fuel).0,
        found_ok(top_level@, final(current_benchmark_sets)@),
        forall|k: Seq<char>|
            #[trigger] keys_of(final(current_benchmark_sets)@).contains(k) <==> (keys_of(
                old(current_benchmark_sets)@,
            ).contains(k) || (walk(top_level@, key@, names(old(seen_keys)@), fuel).2.contains(k)
                && top_level@.benchmark_sets.contains_key(k))),
    decreases fuel,
{
    let ghost doc = top_level@;
    let ghost seen0 = names(seen_keys@);
    let ghost found0 = keys_of(current_benchmark_sets@);
    let mut seen = false;
    let mut j: usize = 0;
    while j < seen_keys.len()
        invariant
            j <= seen_keys@.len(),
            seen == exists|t: int| 0 <= t < j && (#[trigger] seen_keys@[t])@ == key@,
        decreases seen_keys@.len() - j,
    {
        if seen_keys[j] == key {
            seen = true;
        }
        j = j + 1;
    }
    proof {
        if seen {
            let t = choose|t: int| 0 <= t < j && (#[trigger] seen_keys@[t])@ == key@;
            assert(seen0[t] == key@);
        }
        if seen0.contains(key@) {
            let t = choose|t: int| 0 <= t < seen0.len() && seen0[t] == key@;
            assert(seen_keys@[t]@ == key@);
        }
    }
    if seen {
        return;
    }
    let ghost mut acc: Seq<Seq<char>> = seq![];
    if let Some(i) = position_of(&top_level.meta_sets, &key) {
        proof {
            lemma_entry_index(top_level.meta_sets@, i as int);
            lemma_room(top_level, seen0, key@);
        }
        let members = &top_level.meta_sets[i].1;
        let ghost ms = names(members@);
        assert(ms == doc.meta_sets[key@]);
        let ghost f = (fuel - 1) as nat;
        let ghost s1 = seen0.push(key@);
        let ghost total = walk_members(doc, ms, 0, s1, f);
        seen_keys.push(key.clone());
        assert(names(seen_keys@) =~= s1);
        let mut m: usize = 0;
        while m < members.len()
            invariant
                top_level.wf(),
                doc == top_level@,
                f < fuel,
                ms == names(members@),
                m <= members@.len(),
                seen_ok(doc, names(seen_keys@)),
                seen_keys@.len() >= s1.len(),
                f + seen_keys@.len() > meta_count(doc),
                found_ok(doc, current_benchmark_sets@),
                forall|k: Seq<char>|
                    #[trigger] keys_of(current_benchmark_sets@).contains(k) <==> (found0.contains(k)
                        || (acc.contains(k) && doc.benchmark_sets.contains_key(k))),
                total.0 == walk_members(doc, ms, m as int, names(seen_keys@), f).0,
                total.2 == acc + walk_members(doc, ms, m as int, names(seen_keys@), f).2,
            decreases members@.len() - m,
        {
            let ghost before = names(seen_keys@);
            let ghost w = walk(doc, ms[m as int], before, f);
            let ghost rest = walk_members(doc, ms, m + 1, w.0, f);
            walk_meta_recursive_for_benchmarks(
                members[m].clone(),
                top_level,
                seen_keys,
                current_benchmark_sets,
                Ghost(f),
            );
            proof {
                assert(acc + (w.2 + rest.2) =~= (acc + w.2) + rest.2);
                assert forall|k: Seq<char>| (acc + w.2).contains(k) <==> (acc.contains(k) || w.2.contains(k)) by {
                    lemma_contains_add(acc, w.2, k);
                }
                acc = acc + w.2;
            }
            m = m + 1;
        }
        assert(acc + seq![] =~= acc);
    }
    // `acc` now holds what the members reached; the key itself comes last.
    let ghost w = walk(doc, key@, seen0, fuel);
    assert(w.2 == acc.push(key@));
    let ghost mid = keys_of(current_benchmark_sets@);
    assert(forall|k: Seq<char>|
        #[trigger] mid.contains(k) <==> (found0.contains(k) || (acc.contains(k)
            && doc.benchmark_sets.contains_key(k))));
    let ghost mut added = false;
    if let Some(set) = top_level.benchmark_set(key.as_str()) {
        if position_of(current_benchmark_sets, &key).is_none() {
            let ghost entries = current_benchmark_sets@;
            let ghost e = (key, set);
            current_benchmark_sets.push((key, set));
            proof {
                assert(current_benchmark_sets@ == entries.push(e));
                lemma_push_unique(keys_of(entries), e.0@);
                assert(keys_of(current_benchmark_sets@) =~= keys_of(entries).push(e.0@));
                added = true;
            }
        }
    }
    assert(added ==> keys_of(current_benchmark_sets@) == mid.push(key@));
    assert(!added ==> keys_of(current_benchmark_sets@) == mid);
    assert(doc.benchmark_sets.contains_key(key@) && !mid.contains(key@) ==> added);
    proof {
        assert forall|k: Seq<char>| #[trigger] acc.push(key@).contains(k) <==> (acc.contains(k) || k == key@) by {
            lemma_contains_add(acc, seq![key@], k);
            assert(acc.push(key@) =~= acc + seq![key@]);
            if k == key@ {
                assert(seq![key@][0] == k);
            }
        }
        assert forall|k: Seq<char>| #[trigger] keys_of(current_benchmark_sets@).contains(k) <==> (found0.contains(k)
            || (w.2.contains(k) && doc.benchmark_sets.contains_key(k))) by {
            let now = keys_of(current_benchmark_sets@);
            if now.contains(k) && k != key@ {
                let t = choose|t: int| 0 <= t < now.len() && now[t] == k;
                assert(current_benchmark_sets@[t].0@ == k);
                if added {
                    assert(t < mid.len());
                    assert(mid[t] == k);
                }
                assert(mid.contains(k));
            }
            if mid.contains(k) {
                let t = choose|t: int| 0 <= t < mid.len() && mid[t] == k;
                assert(now[t] == k);
            }
            if k == key@ && doc.benchmark_sets.contains_key(k) && !mid.contains(k) {
                assert(added);
                assert(now[mid.len() as int] == k);
            }
        }
    }
}

/// Every benchmark set that the meta set `meta_set_key` reaches, directly or
/// through other meta sets, each once under its name. A name that is a meta
/// set and a benchmark set at once counts as both.
pub fn get_sets_from_meta(meta_set_key: String, top_level: &TopLevel) -> (r: Vec<(String, BenchmarkSet)>)
    requires
        top_level.wf(),
    ensures
        found_ok(top_level@, r@),
        sets_view(r@) == resolve_benchmarks(top_level@, meta_set_key@),
{
    let ghost key = meta_set_key@;
    let mut current_sets: Vec<(String, BenchmarkSet)> = Vec::new();
    let mut seen_keys: Vec<String> = Vec::new();
    assert(names(seen_keys@) =~= seq![]);
    walk_meta_recursive_for_benchmarks(
        meta_set_key,
        top_level,
        &mut seen_keys,
        &mut current_sets,
        Ghost(meta_count(top_level@) + 1),
    );
    proof {
        let doc = top_level@;
        let expected = resolve_benchmarks(doc, key);
        assert forall|k: Seq<char>| #[trigger] sets_view(current_sets@).contains_key(k) implies sets_view(
            current_sets@,
        )[k] == expected[k] by {
            lemma_entry_of(current_sets@, k);
        }
        assert(sets_view(current_sets@) =~= expected);
    }
    current_sets
}

/// The meta sets that `meta_set_key` reaches, itself included where it is
/// a meta set: each once, each after every meta set that it leads to.
pub fn metas_from_document(meta_set_key: String, top_level: &TopLevel) -> (r: Vec<String>)
    requires
        top_level.wf(),
    ensures
        names(r@) == resolve_metas(top_level@, meta_set_key@),
{
    let ghost key = meta_set_key@;
    let mut seen_keys: Vec<String> = Vec::new();
    let mut current_meta_sets: Vec<String> = Vec::new();
    assert(names(seen_keys@) =~= seq![]);
    walk_meta_recursive_for_metas(
        meta_set_key,
        top_level,
        &mut seen_keys,
        &mut current_meta_sets,
        Ghost(meta_count(top_level@) + 1),
    );
    assert(names(current_meta_sets@) =~= resolve_metas(top_level@, key));
    current_meta_sets
}

/// The meta sets that `meta_set_key` reaches in a loaded document, as
/// `metas_from_document` gives them; where loading failed, its error.
pub fn get_metas_from_meta(meta_set_key: String, loaded: Result<TopLevel, ProcedureError>) -> (r: Result<
    Vec<String>,
    ProcedureError,
>)
    requires
        loaded matches Ok(d) ==> d.wf(),
    ensures
        match loaded {
            Ok(d) => r matches Ok(v) && names(v@) == resolve_metas(d@, meta_set_key@),
            Err(e) => r == Err::<Vec<String>, ProcedureError>(e),
        },
{
    let top_level = loaded?;
    Ok(metas_from_document(meta_set_key, &top_level))
}

/// A name that is neither a meta set nor a benchmark set resolves to
/// nothing: no benchmark sets and no meta sets.
pub proof fn lemma_unknown_key_resolves_to_nothing(doc: TopLevelView, key: Seq<char>)
    requires
        !doc.meta_sets.contains_key(key),
        !doc.benchmark_sets.contains_key(key),
    ensures
        resolve_benchmarks(doc, key).is_empty(),
        resolve_metas(doc, key).len() == 0,
{
    let w = walk_from(doc, key);
    assert(w.2 == seq![key]);
    assert forall|k: Seq<char>| !#[trigger] resolve_benchmarks(doc, key).contains_key(k) by {
        if w.2.contains(k) {
            let j = choose|j: int| 0 <= j < w.2.len() && w.2[j] == k;
            assert(k == key);
        }
    }
    assert(resolve_benchmarks(doc, key) =~= Map::empty());
}

} // verus!
