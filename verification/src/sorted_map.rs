//! A string-keyed map kept as a vector of (key, value) pairs in strictly
//! increasing key order (code-point lexicographic, the order of `String`).

use vstd::prelude::*;
use crate::text::{chars_eq_str, chars_of, string_of};

verus! {

/// Lexicographic order on character sequences, by code point.
pub open spec fn seq_less(a: Seq<char>, b: Seq<char>) -> bool
    decreases a.len(),
{
    if b.len() == 0 {
        false
    } else if a.len() == 0 {
        true
    } else if a[0] != b[0] {
        a[0] < b[0]
    } else {
        seq_less(a.drop_first(), b.drop_first())
    }
}

pub proof fn lemma_seq_less_irreflexive(a: Seq<char>)
    ensures
        !seq_less(a, a),
    decreases a.len(),
{
    if a.len() > 0 {
        lemma_seq_less_irreflexive(a.drop_first());
    }
}

pub proof fn lemma_seq_less_trichotomy(a: Seq<char>, b: Seq<char>)
    ensures
        seq_less(a, b) || a == b || seq_less(b, a),
    decreases a.len(),
{
    if a.len() > 0 && b.len() > 0 && a[0] == b[0] {
        lemma_seq_less_trichotomy(a.drop_first(), b.drop_first());
        if a.drop_first() == b.drop_first() {
            assert(a =~= seq![a[0]] + a.drop_first());
            assert(b =~= seq![b[0]] + b.drop_first());
        }
    } else if a.len() == 0 && b.len() == 0 {
        assert(a =~= b);
    } else if a.len() > 0 && b.len() > 0 {
    }
}

pub proof fn lemma_seq_less_transitive(a: Seq<char>, b: Seq<char>, c: Seq<char>)
    requires
        seq_less(a, b),
        seq_less(b, c),
    ensures
        seq_less(a, c),
    decreases a.len(),
{
    if a.len() > 0 && b.len() > 0 && c.len() > 0 && a[0] == b[0] && b[0] == c[0] {
        lemma_seq_less_transitive(a.drop_first(), b.drop_first(), c.drop_first());
    }
}

/// The keys of `v` strictly increase.
pub open spec fn keys_sorted(v: Seq<(String, String)>) -> bool {
    forall|i: int, j: int| 0 <= i < j < v.len() ==> seq_less(#[trigger] v[i].0@, #[trigger] v[j].0@)
}

/// The value stored under `k`, if any (first match).
pub open spec fn lookup(v: Seq<(String, String)>, k: Seq<char>) -> Option<Seq<char>>
    decreases v.len(),
{
    if v.len() == 0 {
        None
    } else if v[0].0@ == k {
        Some(v[0].1@)
    } else {
        lookup(v.drop_first(), k)
    }
}

/// In a sorted map, the value under a present key is the one at its index,
/// and an absent key has none.
pub proof fn lemma_lookup_sorted(v: Seq<(String, String)>, k: Seq<char>)
    requires
        keys_sorted(v),
    ensures
        forall|i: int| 0 <= i < v.len() && #[trigger] v[i].0@ == k ==> lookup(v, k) == Some(v[i].1@),
        (forall|i: int| 0 <= i < v.len() ==> #[trigger] v[i].0@ != k) ==> lookup(v, k) is None,
    decreases v.len(),
{
    if v.len() > 0 {
        let t = v.drop_first();
        assert forall|a: int, b: int| 0 <= a < b < t.len() implies seq_less(#[trigger] t[a].0@, #[trigger] t[b].0@) by {
            assert(t[a] == v[a + 1]);
            assert(t[b] == v[b + 1]);
        }
        lemma_lookup_sorted(t, k);
        assert forall|i: int| 0 <= i < v.len() && #[trigger] v[i].0@ == k implies lookup(v, k) == Some(v[i].1@) by {
            if i > 0 {
                assert(v[0].0@ != k) by {
                    lemma_seq_less_irreflexive(k);
                }
                assert(t[i - 1] == v[i]);
            }
        }
        if forall|i: int| 0 <= i < v.len() ==> #[trigger] v[i].0@ != k {
            assert forall|i: int| 0 <= i < t.len() implies #[trigger] t[i].0@ != k by {
                assert(t[i] == v[i + 1]);
            }
        }
    }
}

/// Lexicographic comparison of two character vectors.
pub fn chars_less(a: &Vec<char>, b: &Vec<char>) -> (r: bool)
    ensures
        r == seq_less(a@, b@),
{
    let mut i: usize = 0;
    assert(a@.skip(0) =~= a@);
    assert(b@.skip(0) =~= b@);
    while i < a.len() && i < b.len()
        invariant
            i <= a@.len(),
            i <= b@.len(),
            seq_less(a@, b@) == seq_less(a@.skip(i as int), b@.skip(i as int)),
        decreases a@.len() - i,
    {
        if a[i] != b[i] {
            return a[i] < b[i];
        }
        assert(a@.skip(i as int).drop_first() =~= a@.skip(i + 1));
        assert(b@.skip(i as int).drop_first() =~= b@.skip(i + 1));
        i = i + 1;
    }
    i < b.len()
}

/// Position of `k` in sorted `v`: the first index whose key is not below `k`,
/// and whether the key there equals `k`.
fn find_slot(v: &Vec<(String, String)>, k: &Vec<char>) -> (r: (usize, bool))
    requires
        keys_sorted(v@),
    ensures
        r.0 <= v@.len(),
        forall|j: int| 0 <= j < r.0 ==> seq_less(#[trigger] v@[j].0@, k@),
        r.1 ==> r.0 < v@.len() && v@[r.0 as int].0@ == k@,
        !r.1 ==> forall|j: int| r.0 <= j < v@.len() ==> seq_less(k@, #[trigger] v@[j].0@),
{
    let mut i: usize = 0;
    while i < v.len()
        invariant
            i <= v@.len(),
            keys_sorted(v@),
            forall|j: int| 0 <= j < i ==> seq_less(#[trigger] v@[j].0@, k@),
        decreases v@.len() - i,
    {
        let key = chars_of(v[i].0.as_str());
        if !chars_less(&key, k) {
            let eq = chars_eq_str(k, v[i].0.as_str());
            proof {
                lemma_seq_less_trichotomy(v@[i as int].0@, k@);
                if !eq {
                    assert forall|j: int| i <= j < v@.len() implies seq_less(k@, #[trigger] v@[j].0@) by {
                        if j > i {
                            lemma_seq_less_transitive(k@, v@[i as int].0@, v@[j].0@);
                        }
                    }
                }
            }
            return (i, eq);
        }
        i = i + 1;
    }
    (i, false)
}

/// Store `val` under `k`, keeping keys sorted; returns the value that was
/// replaced, if any.
pub fn insert_sorted(v: &mut Vec<(String, String)>, k: &str, val: &str) -> (r: Option<String>)
    requires
        keys_sorted(old(v)@),
    ensures
        keys_sorted(final(v)@),
        lookup(final(v)@, k@) == Some(val@),
        forall|k2: Seq<char>| k2 != k@ ==> lookup(final(v)@, k2) == lookup(old(v)@, k2),
        match r {
            Some(o) => lookup(old(v)@, k@) == Some(o@) && final(v)@.len() == old(v)@.len(),
            None => lookup(old(v)@, k@) is None && final(v)@.len() == old(v)@.len() + 1,
        },
{
    let kc = chars_of(k);
    let (i, found) = find_slot(v, &kc);
    let ghost old_v = v@;
    proof {
        lemma_lookup_sorted(old_v, k@);
        assert forall|j: int| 0 <= j < old_v.len() implies #[trigger] old_v[j].0@ != k@ || (found && j == i) by {
            lemma_seq_less_irreflexive(k@);
        }
    }
    if found {
        let old_entry = v.remove(i);
        v.insert(i, (string_of(k), string_of(val)));
        proof {
            assert(v@ =~= old_v.update(i as int, v@[i as int]));
            assert forall|x: int, y: int| 0 <= x < y < v@.len() implies seq_less(#[trigger] v@[x].0@, #[trigger] v@[y].0@) by {
                assert(old_v[x].0@ == v@[x].0@);
                assert(old_v[y].0@ == v@[y].0@);
            }
            lemma_lookup_sorted(v@, k@);
            lemma_lookup_sorted(old_v, k@);
            assert(v@[i as int].0@ == k@);
            assert forall|k2: Seq<char>| k2 != k@ implies lookup(v@, k2) == lookup(old_v, k2) by {
                lemma_lookup_sorted(v@, k2);
                lemma_lookup_sorted(old_v, k2);
                if exists|j: int| 0 <= j < old_v.len() && #[trigger] old_v[j].0@ == k2 {
                    let j = choose|j: int| 0 <= j < old_v.len() && #[trigger] old_v[j].0@ == k2;
                    assert(v@[j] == old_v[j]);
                } else {
                    assert forall|j: int| 0 <= j < v@.len() implies #[trigger] v@[j].0@ != k2 by {
                        if j != i {
                            assert(v@[j] == old_v[j]);
                        }
                    }
                }
            }
        }
        Some(old_entry.1)
    } else {
        v.insert(i, (string_of(k), string_of(val)));
        proof {
            assert forall|a: int, b: int| 0 <= a < b < v@.len() implies seq_less(#[trigger] v@[a].0@, #[trigger] v@[b].0@) by {
                if b == i {
                } else if a == i {
                } else if a < i && b > i {
                    assert(v@[a] == old_v[a]);
                    assert(v@[b] == old_v[b - 1]);
                    lemma_seq_less_transitive(v@[a].0@, k@, v@[b].0@);
                } else if b < i {
                    assert(v@[a] == old_v[a]);
                    assert(v@[b] == old_v[b]);
                } else {
                    assert(v@[a] == old_v[a - 1]);
                    assert(v@[b] == old_v[b - 1]);
                }
            }
            lemma_lookup_sorted(v@, k@);
            lemma_lookup_sorted(old_v, k@);
            assert(v@[i as int].0@ == k@);
            assert forall|k2: Seq<char>| k2 != k@ implies lookup(v@, k2) == lookup(old_v, k2) by {
                lemma_lookup_sorted(v@, k2);
                lemma_lookup_sorted(old_v, k2);
                if exists|j: int| 0 <= j < old_v.len() && #[trigger] old_v[j].0@ == k2 {
                    let j = choose|j: int| 0 <= j < old_v.len() && #[trigger] old_v[j].0@ == k2;
                    let nj = if j < i { j } else { j + 1 };
                    assert(v@[nj] == old_v[j]);
                } else {
                    assert forall|j: int| 0 <= j < v@.len() implies #[trigger] v@[j].0@ != k2 by {
                        if j < i {
                            assert(v@[j] == old_v[j]);
                        } else if j > i {
                            assert(v@[j] == old_v[j - 1]);
                        }
                    }
                }
            }
        }
        None
    }
}

/// The value stored under the key `k`.
pub fn get_sorted<'a>(v: &'a Vec<(String, String)>, k: &Vec<char>) -> (r: Option<&'a str>)
    requires
        keys_sorted(v@),
    ensures
        match r {
            Some(s) => lookup(v@, k@) == Some(s@),
            None => lookup(v@, k@) is None,
        },
{
    let (i, found) = find_slot(v, k);
    proof {
        lemma_lookup_sorted(v@, k@);
        assert forall|j: int| 0 <= j < v@.len() implies #[trigger] v@[j].0@ != k@ || (found && j == i) by {
            lemma_seq_less_irreflexive(k@);
        }
    }
    if found {
        Some(v[i].1.as_str())
    } else {
        None
    }
}

} // verus!
