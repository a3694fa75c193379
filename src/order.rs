//! The order of names: lexicographic, character by character, as `str`
//! orders its values (UTF-8 keeps the order of code points).
use vstd::prelude::*;

use crate::document::names;

verus! {

/// Whether `a` comes strictly before `b`.
pub open spec fn lex_lt(a: Seq<char>, b: Seq<char>) -> bool
    decreases a.len(),
{
    if a.len() == 0 {
        b.len() > 0
    } else if b.len() == 0 {
        false
    } else if a[0] != b[0] {
        (a[0] as int) < (b[0] as int)
    } else {
        lex_lt(a.drop_first(), b.drop_first())
    }
}

/// Each name comes strictly before every later one.
pub open spec fn strictly_sorted(s: Seq<Seq<char>>) -> bool {
    forall|i: int, j: int| 0 <= i < j < s.len() ==> lex_lt(#[trigger] s[i], #[trigger] s[j])
}

/// The names of a set in increasing order.
pub open spec fn sorted_of(s: Set<Seq<char>>) -> Seq<Seq<char>> {
    choose|q: Seq<Seq<char>>| strictly_sorted(q) && q.to_set() == s
}

pub proof fn lemma_lt_irreflexive(a: Seq<char>)
    ensures
        !lex_lt(a, a),
    decreases a.len(),
{
    if a.len() > 0 {
        lemma_lt_irreflexive(a.drop_first());
    }
}

pub proof fn lemma_lt_transitive(a: Seq<char>, b: Seq<char>, c: Seq<char>)
    requires
        lex_lt(a, b),
        lex_lt(b, c),
    ensures
        lex_lt(a, c),
    decreases a.len(),
{
    if a.len() > 0 && b.len() > 0 && c.len() > 0 && a[0] == b[0] && b[0] == c[0] {
        lemma_lt_transitive(a.drop_first(), b.drop_first(), c.drop_first());
    }
}

pub proof fn lemma_lt_total(a: Seq<char>, b: Seq<char>)
    requires
        a != b,
    ensures
        lex_lt(a, b) || lex_lt(b, a),
    decreases a.len(),
{
    if a.len() == 0 {
        if b.len() == 0 {
            assert(a =~= b);
        }
    } else if b.len() > 0 {
        if a[0] == b[0] {
            if a.drop_first() == b.drop_first() {
                lemma_same_head_tail(a, b);
            }
            lemma_lt_total(a.drop_first(), b.drop_first());
        } else {
            assert((a[0] as int) != (b[0] as int));
        }
    }
}

proof fn lemma_same_head_tail<A>(a: Seq<A>, b: Seq<A>)
    requires
        a.len() > 0,
        b.len() > 0,
        a[0] == b[0],
        a.drop_first() == b.drop_first(),
    ensures
        a == b,
{
    assert(a.len() == a.drop_first().len() + 1);
    assert(b.len() == b.drop_first().len() + 1);
    assert forall|k: int| 0 <= k < a.len() implies a[k] == b[k] by {
        if k > 0 {
            assert(a[k] == a.drop_first()[k - 1]);
            assert(b[k] == b.drop_first()[k - 1]);
        }
    }
    assert(a =~= b);
}

/// Two sorted sequences of one set are one sequence.
pub proof fn lemma_sorted_unique(a: Seq<Seq<char>>, b: Seq<Seq<char>>)
    requires
        strictly_sorted(a),
        strictly_sorted(b),
        a.to_set() == b.to_set(),
    ensures
        a == b,
    decreases a.len(),
{
    if a.len() == 0 {
        if b.len() > 0 {
            assert(b.to_set().contains(b[0]));
        }
        assert(a =~= b);
    } else {
        assert(a.to_set().contains(a[0]));
        let j = choose|j: int| 0 <= j < b.len() && b[j] == a[0];
        assert(b.to_set().contains(b[0]));
        let i = choose|i: int| 0 <= i < a.len() && a[i] == b[0];
        assert(a.contains(a[0]));
        if j > 0 {
            assert(lex_lt(b[0], b[j]));
            if i > 0 {
                assert(lex_lt(a[0], a[i]));
                lemma_lt_transitive(a[0], a[i], a[0]);
            }
            lemma_lt_irreflexive(a[0]);
        }
        assert(j == 0);
        assert(b[0] == a[0]);
        let a1 = a.drop_first();
        let b1 = b.drop_first();
        assert forall|x: Seq<char>| a1.to_set().contains(x) <==> b1.to_set().contains(x) by {
            if a1.contains(x) {
                let k = choose|k: int| 0 <= k < a1.len() && a1[k] == x;
                assert(a[k + 1] == x);
                assert(lex_lt(a[0], a[k + 1]));
                lemma_lt_irreflexive(x);
                assert(a.contains(x));
                assert(a.to_set().contains(x));
                assert(b.to_set().contains(x));
                let t = choose|t: int| 0 <= t < b.len() && b[t] == x;
                assert(t != 0);
                assert(b1[t - 1] == x);
            }
            if b1.contains(x) {
                let k = choose|k: int| 0 <= k < b1.len() && b1[k] == x;
                assert(b[k + 1] == x);
                assert(lex_lt(b[0], b[k + 1]));
                lemma_lt_irreflexive(x);
                assert(b.contains(x));
                assert(b.to_set().contains(x));
                assert(a.to_set().contains(x));
                let t = choose|t: int| 0 <= t < a.len() && a[t] == x;
                assert(t != 0);
                assert(a1[t - 1] == x);
            }
        }
        assert(a1.to_set() =~= b1.to_set());
        assert forall|p: int, q: int| 0 <= p < q < a1.len() implies lex_lt(#[trigger] a1[p], #[trigger] a1[q]) by {
            assert(a1[p] == a[p + 1] && a1[q] == a[q + 1]);
        }
        assert forall|p: int, q: int| 0 <= p < q < b1.len() implies lex_lt(#[trigger] b1[p], #[trigger] b1[q]) by {
            assert(b1[p] == b[p + 1] && b1[q] == b[q + 1]);
        }
        lemma_sorted_unique(a1, b1);
        lemma_same_head_tail(a, b);
    }
}

/// A sorted sequence of a set is the sorted form of that set.
pub proof fn lemma_sorted_of(q: Seq<Seq<char>>)
    requires
        strictly_sorted(q),
    ensures
        sorted_of(q.to_set()) == q,
{
    let c = sorted_of(q.to_set());
    lemma_sorted_unique(c, q);
}

/// Whether `a` comes strictly before `b`.
pub fn text_lt(a: &String, b: &String) -> (r: bool)
    ensures
        r == lex_lt(a@, b@),
{
    let sa = a.as_str();
    let sb = b.as_str();
    let n = sa.unicode_len();
    let m = sb.unicode_len();
    let mut i: usize = 0;
    assert(a@.skip(0) =~= a@ && b@.skip(0) =~= b@);
    while i < n && i < m
        invariant
            sa@ == a@,
            sb@ == b@,
            n == a@.len(),
            m == b@.len(),
            i <= n,
            i <= m,
            lex_lt(a@, b@) == lex_lt(a@.skip(i as int), b@.skip(i as int)),
        decreases n - i,
    {
        let ca = sa.get_char(i);
        let cb = sb.get_char(i);
        assert(a@.skip(i as int)[0] == ca && b@.skip(i as int)[0] == cb);
        if ca != cb {
            assert((ca as u32) as int == ca as int && (cb as u32) as int == cb as int);
            return (ca as u32) < (cb as u32);
        }
        assert(a@.skip(i as int).drop_first() =~= a@.skip(i + 1));
        assert(b@.skip(i as int).drop_first() =~= b@.skip(i + 1));
        i = i + 1;
    }
    i == n && i < m
}

/// The distinct strings of `v`, in increasing order.
pub fn sorted_members(v: &Vec<String>) -> (r: Vec<String>)
    ensures
        strictly_sorted(names(r@)),
        names(r@).to_set() == names(v@).to_set(),
        names(r@) == sorted_of(names(v@).to_set()),
{
    let mut r: Vec<String> = Vec::new();
    let mut i: usize = 0;
    assert(names(r@).to_set() =~= names(v@).subrange(0, 0).to_set());
    while i < v.len()
        invariant
            i <= v@.len(),
            strictly_sorted(names(r@)),
            names(r@).to_set() == names(v@).subrange(0, i as int).to_set(),
        decreases v@.len() - i,
    {
        let x = &v[i];
        let mut p: usize = 0;
        while p < r.len() && text_lt(&r[p], x)
            invariant
                i < v@.len(),
                x == v@[i as int],
                p <= r@.len(),
                forall|k: int| 0 <= k < p ==> lex_lt(#[trigger] r@[k]@, x@),
            decreases r@.len() - p,
        {
            p = p + 1;
        }
        let ghost old_names = names(r@);
        let ghost prefix = names(v@).subrange(0, i as int);
        let ghost next = names(v@).subrange(0, i + 1);
        proof {
            assert forall|y: Seq<char>| next.to_set().contains(y) <==> (prefix.to_set().contains(y) || y == x@) by {
                if next.contains(y) {
                    let k = choose|k: int| 0 <= k < next.len() && next[k] == y;
                    if k < i {
                        assert(prefix[k] == y);
                    }
                }
                if prefix.contains(y) {
                    let k = choose|k: int| 0 <= k < prefix.len() && prefix[k] == y;
                    assert(next[k] == y);
                }
                if y == x@ {
                    assert(next[i as int] == y);
                }
            }
        }
        if p < r.len() && r[p] == *x {
            proof {
                assert(old_names[p as int] == x@);
                assert(old_names.contains(x@));
                assert(names(r@).to_set() =~= next.to_set());
            }
        } else {
            r.insert(p, x.clone());
            proof {
                let new_names = names(r@);
                assert(new_names =~= old_names.insert(p as int, x@));
                if p < old_names.len() {
                    assert(old_names[p as int] != x@);
                    assert(!lex_lt(old_names[p as int], x@));
                    lemma_lt_total(old_names[p as int], x@);
                }
                assert forall|a: int, b: int| 0 <= a < b < new_names.len() implies lex_lt(
                    #[trigger] new_names[a],
                    #[trigger] new_names[b],
                ) by {
                    if b < p {
                        assert(new_names[a] == old_names[a] && new_names[b] == old_names[b]);
                    } else if b == p {
                        assert(new_names[a] == r@[a]@);
                    } else if a == p {
                        assert(new_names[b] == old_names[b - 1]);
                        if b - 1 > p {
                            assert(lex_lt(old_names[p as int], old_names[b - 1]));
                            lemma_lt_transitive(x@, old_names[p as int], old_names[b - 1]);
                        }
                    } else if a < p {
                        assert(new_names[a] == old_names[a] && new_names[b] == old_names[b - 1]);
                    } else {
                        assert(new_names[a] == old_names[a - 1] && new_names[b] == old_names[b - 1]);
                    }
                }
                assert forall|y: Seq<char>| new_names.to_set().contains(y) <==> (old_names.to_set().contains(y) || y == x@) by {
                    if new_names.contains(y) {
                        let k = choose|k: int| 0 <= k < new_names.len() && new_names[k] == y;
                        if k < p {
                            assert(old_names[k] == y);
                        } else if k > p {
                            assert(old_names[k - 1] == y);
                        }
                    }
                    if old_names.contains(y) {
                        let k = choose|k: int| 0 <= k < old_names.len() && old_names[k] == y;
                        if k < p {
                            assert(new_names[k] == y);
                        } else {
                            assert(new_names[k + 1] == y);
                        }
                    }
                    if y == x@ {
                        assert(new_names[p as int] == y);
                    }
                }
                assert(new_names.to_set() =~= next.to_set());
            }
        }
        i = i + 1;
    }
    assert(names(v@).subrange(0, v@.len() as int) =~= names(v@));
    proof {
        lemma_sorted_of(names(r@));
    }
    r
}

} // verus!
