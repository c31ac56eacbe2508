//! Lexicographic order on character sequences, which is the order `Ord`
//! gives `String` (UTF-8 byte order agrees with code point order), and
//! sorted, duplicate-free lists of strings.

use vstd::prelude::*;

use crate::text::char_code;

verus! {

/// `a` comes strictly before `b`, comparing from position `i` on.
pub open spec fn lex_lt_from(a: Seq<char>, b: Seq<char>, i: int) -> bool
    decreases a.len() - i,
{
    if i < 0 || i >= a.len() {
        0 <= i < b.len()
    } else if i >= b.len() {
        false
    } else if a[i] != b[i] {
        (a[i] as int) < (b[i] as int)
    } else {
        lex_lt_from(a, b, i + 1)
    }
}

/// `a` comes strictly before `b` in lexicographic order.
pub open spec fn lex_lt(a: Seq<char>, b: Seq<char>) -> bool {
    lex_lt_from(a, b, 0)
}

/// Every element comes strictly before the ones after it: the list is
/// sorted and holds no element twice.
pub open spec fn strictly_sorted(s: Seq<Seq<char>>) -> bool {
    forall|i: int, j: int| 0 <= i < j < s.len() ==> lex_lt(#[trigger] s[i], #[trigger] s[j])
}

proof fn lemma_lex_irreflexive_from(a: Seq<char>, i: int)
    requires
        0 <= i,
    ensures
        !lex_lt_from(a, a, i),
    decreases a.len() - i,
{
    if i < a.len() {
        lemma_lex_irreflexive_from(a, i + 1);
    }
}

proof fn lemma_lex_transitive_from(a: Seq<char>, b: Seq<char>, c: Seq<char>, i: int)
    requires
        0 <= i,
        a.take(i) == b.take(i),
        b.take(i) == c.take(i),
        lex_lt_from(a, b, i),
        lex_lt_from(b, c, i),
    ensures
        lex_lt_from(a, c, i),
    decreases a.len() - i,
{
    if i < a.len() && i < b.len() && i < c.len() && a[i] == b[i] && b[i] == c[i] {
        assert(a.take(i + 1) == a.take(i).push(a[i]));
        assert(b.take(i + 1) == b.take(i).push(b[i]));
        assert(c.take(i + 1) == c.take(i).push(c[i]));
        lemma_lex_transitive_from(a, b, c, i + 1);
    }
}

proof fn lemma_lex_total_from(a: Seq<char>, b: Seq<char>, i: int)
    requires
        0 <= i <= a.len(),
        i <= b.len(),
        a.take(i) == b.take(i),
    ensures
        a == b || lex_lt_from(a, b, i) || lex_lt_from(b, a, i),
        !(lex_lt_from(a, b, i) && lex_lt_from(b, a, i)),
    decreases a.len() - i,
{
    if i == a.len() && i == b.len() {
        assert(a == a.take(i));
        assert(b == b.take(i));
    } else if i < a.len() && i < b.len() && a[i] == b[i] {
        assert(a.take(i + 1) == a.take(i).push(a[i]));
        assert(b.take(i + 1) == b.take(i).push(b[i]));
        lemma_lex_total_from(a, b, i + 1);
    }
}

/// No sequence comes before itself.
pub proof fn lemma_lex_irreflexive(a: Seq<char>)
    ensures
        !lex_lt(a, a),
{
    lemma_lex_irreflexive_from(a, 0);
}

/// The order is transitive.
pub proof fn lemma_lex_transitive(a: Seq<char>, b: Seq<char>, c: Seq<char>)
    requires
        lex_lt(a, b),
        lex_lt(b, c),
    ensures
        lex_lt(a, c),
{
    assert(a.take(0) =~= b.take(0));
    assert(b.take(0) =~= c.take(0));
    lemma_lex_transitive_from(a, b, c, 0);
}

/// Of two distinct sequences exactly one comes first.
pub proof fn lemma_lex_total(a: Seq<char>, b: Seq<char>)
    ensures
        a == b || lex_lt(a, b) || lex_lt(b, a),
        !(lex_lt(a, b) && lex_lt(b, a)),
{
    assert(a.take(0) =~= b.take(0));
    lemma_lex_total_from(a, b, 0);
}

/// Three-way comparison result.
pub enum Comparison {
    Less,
    Equal,
    Greater,
}

/// Compares `a` and `b` lexicographically by code point.
pub fn compare_chars(a: &[char], b: &[char]) -> (r: Comparison)
    ensures
        r is Less <==> lex_lt(a@, b@),
        r is Equal <==> a@ == b@,
        r is Greater <==> lex_lt(b@, a@),
{
    proof {
        lemma_lex_total(a@, b@);
        lemma_lex_irreflexive(a@);
    }
    let mut i: usize = 0;
    while i < a.len() && i < b.len()
        invariant
            i <= a.len(),
            i <= b.len(),
            a@.take(i as int) == b@.take(i as int),
            lex_lt(a@, b@) == lex_lt_from(a@, b@, i as int),
            lex_lt(b@, a@) == lex_lt_from(b@, a@, i as int),
        decreases a.len() - i,
    {
        if a[i] != b[i] {
            let x = char_code(a[i]);
            let y = char_code(b[i]);
            if x < y {
                return Comparison::Less;
            } else {
                return Comparison::Greater;
            }
        }
        assert(a@.take(i + 1) == a@.take(i as int).push(a@[i as int]));
        assert(b@.take(i + 1) == b@.take(i as int).push(b@[i as int]));
        i += 1;
    }
    if i == a.len() && i == b.len() {
        assert(a@ == a@.take(i as int));
        assert(b@ == b@.take(i as int));
        Comparison::Equal
    } else if i == a.len() {
        Comparison::Less
    } else {
        Comparison::Greater
    }
}

/// Two strictly sorted lists with the same elements are the same list.
pub proof fn lemma_strictly_sorted_unique(s: Seq<Seq<char>>, t: Seq<Seq<char>>)
    requires
        strictly_sorted(s),
        strictly_sorted(t),
        s.to_set() == t.to_set(),
    ensures
        s == t,
    decreases s.len(),
{
    if s.len() == 0 {
        if t.len() > 0 {
            assert(t.to_set().contains(t[0]));
        }
        assert(t.len() == 0);
        assert(s == t);
    } else if t.len() == 0 {
        assert(s.to_set().contains(s[0]));
    } else {
        // The first elements are the least of the common set, hence equal.
        assert(s.to_set().contains(s[0]));
        assert(t.to_set().contains(t[0]));
        let i = choose|i: int| 0 <= i < t.len() && t[i] == s[0];
        let j = choose|j: int| 0 <= j < s.len() && s[j] == t[0];
        if s[0] != t[0] {
            assert(i > 0);
            assert(j > 0);
            assert(lex_lt(t[0], t[i]));
            assert(lex_lt(s[0], s[j]));
            lemma_lex_total(s[0], t[0]);
        }
        assert(s[0] == t[0]);
        let s1 = s.drop_first();
        let t1 = t.drop_first();
        assert(strictly_sorted(s1)) by {
            assert forall|a: int, b: int| 0 <= a < b < s1.len() implies lex_lt(
                #[trigger] s1[a],
                #[trigger] s1[b],
            ) by {
                assert(s1[a] == s[a + 1]);
                assert(s1[b] == s[b + 1]);
            }
        }
        assert(strictly_sorted(t1)) by {
            assert forall|a: int, b: int| 0 <= a < b < t1.len() implies lex_lt(
                #[trigger] t1[a],
                #[trigger] t1[b],
            ) by {
                assert(t1[a] == t[a + 1]);
                assert(t1[b] == t[b + 1]);
            }
        }
        assert(s1.to_set() == t1.to_set()) by {
            assert forall|x: Seq<char>| s1.to_set().contains(x) implies t1.to_set().contains(x) by {
                let a = choose|a: int| 0 <= a < s1.len() && s1[a] == x;
                assert(s[a + 1] == x);
                assert(lex_lt(s[0], x));
                assert(s.to_set().contains(x));
                let b = choose|b: int| 0 <= b < t.len() && t[b] == x;
                if b == 0 {
                    lemma_lex_irreflexive(x);
                }
                assert(t1[b - 1] == x);
            }
            assert forall|x: Seq<char>| t1.to_set().contains(x) implies s1.to_set().contains(x) by {
                let a = choose|a: int| 0 <= a < t1.len() && t1[a] == x;
                assert(t[a + 1] == x);
                assert(lex_lt(t[0], x));
                assert(t.to_set().contains(x));
                let b = choose|b: int| 0 <= b < s.len() && s[b] == x;
                if b == 0 {
                    lemma_lex_irreflexive(x);
                }
                assert(s1[b - 1] == x);
            }
            assert(s1.to_set() =~= t1.to_set());
        }
        lemma_strictly_sorted_unique(s1, t1);
        assert(s == seq![s[0]] + s1);
        assert(t == seq![t[0]] + t1);
    }
}

/// The contents of each vector of `list`.
pub open spec fn views(list: Seq<Vec<char>>) -> Seq<Seq<char>> {
    list.map_values(|v: Vec<char>| v@)
}

/// Inserts `x` into the strictly sorted `list`, unless it is already there.
pub fn insert_sorted_unique(list: &mut Vec<Vec<char>>, x: Vec<char>)
    requires
        strictly_sorted(views(old(list)@)),
    ensures
        strictly_sorted(views(final(list)@)),
        views(final(list)@).to_set() == views(old(list)@).to_set().insert(x@),
{
    let ghost s = views(list@);
    let mut p: usize = 0;
    let mut stop = false;
    while p < list.len() && !stop
        invariant
            p <= list.len(),
            views(list@) == s,
            strictly_sorted(s),
            forall|k: int| 0 <= k < p ==> lex_lt(#[trigger] s[k], x@),
            stop ==> p < list.len() && lex_lt(x@, s[p as int]),
        decreases list.len() - p + (if stop { 0int } else { 1int }),
    {
        assert(s[p as int] == list@[p as int]@);
        match compare_chars(list[p].as_slice(), x.as_slice()) {
            Comparison::Less => {
                p += 1;
            },
            Comparison::Equal => {
                assert(s[p as int] == x@);
                assert(s.to_set().contains(x@));
                assert(s.to_set().insert(x@) =~= s.to_set());
                return;
            },
            Comparison::Greater => {
                stop = true;
            },
        }
    }
    // Every element before `p` precedes `x`, and `x` precedes those from `p` on.
    list.insert(p, x);
    let ghost after = views(list@);
    assert(after =~= s.insert(p as int, x@));
    assert(strictly_sorted(after)) by {
        assert forall|i: int, j: int| 0 <= i < j < after.len() implies lex_lt(
            #[trigger] after[i],
            #[trigger] after[j],
        ) by {
            if j < p {
                assert(after[i] == s[i]);
                assert(after[j] == s[j]);
            } else if i < p && j == p {
                assert(after[i] == s[i]);
            } else if i < p && j > p {
                assert(after[i] == s[i]);
                assert(after[j] == s[j - 1]);
                if j - 1 >= p {
                    lemma_lex_transitive(s[i], x@, s[p as int]);
                    if j - 1 > p {
                        lemma_lex_transitive(s[i], s[p as int], s[j - 1]);
                    }
                }
            } else if i == p {
                assert(after[j] == s[j - 1]);
                if j - 1 > p {
                    lemma_lex_transitive(x@, s[p as int], s[j - 1]);
                }
            } else {
                assert(after[i] == s[i - 1]);
                assert(after[j] == s[j - 1]);
            }
        }
    }
    assert(after.to_set() =~= s.to_set().insert(x@)) by {
        assert forall|y: Seq<char>| after.to_set().contains(y) implies s.to_set().insert(
            x@,
        ).contains(y) by {
            let k = choose|k: int| 0 <= k < after.len() && after[k] == y;
            if k < p {
                assert(s[k] == y);
            } else if k > p {
                assert(s[k - 1] == y);
            }
        }
        assert forall|y: Seq<char>| s.to_set().insert(x@).contains(y) implies after.to_set().contains(
            y,
        ) by {
            if y == x@ {
                assert(after[p as int] == y);
            } else {
                let k = choose|k: int| 0 <= k < s.len() && s[k] == y;
                if k < p {
                    assert(after[k] == y);
                } else {
                    assert(after[k + 1] == y);
                }
            }
        }
    }
}

} // verus!
