use vstd::prelude::*;

use crate::strutil::str_eq;

verus! {

/// The views of a sequence of strings.
pub open spec fn views_of(v: Seq<String>) -> Seq<Seq<char>> {
    v.map_values(|s: String| s@)
}

/// First-match lookup over a sequence of keyed entries.
pub open spec fn assoc_get<V>(s: Seq<(String, V)>, k: Seq<char>) -> Option<V>
    decreases s.len(),
{
    if s.len() == 0 {
        None
    } else if s[0].0@ == k {
        Some(s[0].1)
    } else {
        assoc_get(s.drop_first(), k)
    }
}

pub open spec fn has_key<V>(s: Seq<(String, V)>, k: Seq<char>) -> bool {
    exists|i: int| 0 <= i < s.len() && s[i].0@ == k
}

/// No two entries share a key.
pub open spec fn distinct_keys<V>(s: Seq<(String, V)>) -> bool {
    forall|i: int, j: int| 0 <= i < j < s.len() ==> s[i].0@ != s[j].0@
}

pub proof fn lemma_assoc_get_some<V>(s: Seq<(String, V)>, k: Seq<char>)
    ensures
        assoc_get(s, k) is Some <==> has_key(s, k),
    decreases s.len(),
{
    if s.len() > 0 && s[0].0@ != k {
        lemma_assoc_get_some(s.drop_first(), k);
        if has_key(s, k) {
            let i = choose|i: int| 0 <= i < s.len() && s[i].0@ == k;
            assert(s.drop_first()[i - 1].0@ == k);
        }
        if has_key(s.drop_first(), k) {
            let i = choose|i: int| 0 <= i < s.drop_first().len() && s.drop_first()[i].0@ == k;
            assert(s[i + 1].0@ == k);
        }
    }
}

/// When the first matching entry sits at index `i`, the lookup yields it.
pub proof fn lemma_assoc_get_at<V>(s: Seq<(String, V)>, k: Seq<char>, i: int)
    requires
        0 <= i < s.len(),
        s[i].0@ == k,
        forall|j: int| 0 <= j < i ==> s[j].0@ != k,
    ensures
        assoc_get(s, k) == Some(s[i].1),
    decreases s.len(),
{
    if i > 0 {
        assert(s[0].0@ != k);
        assert forall|j: int| 0 <= j < i - 1 implies s.drop_first()[j].0@ != k by {
            assert(s.drop_first()[j] == s[j + 1]);
        }
        lemma_assoc_get_at(s.drop_first(), k, i - 1);
    }
}

/// Index of the first entry with the given key.
pub fn find_key<V>(entries: &Vec<(String, V)>, k: &str) -> (r: Option<usize>)
    ensures
        match r {
            Some(i) => 0 <= i < entries@.len() && entries@[i as int].0@ == k@ && forall|j: int|
                0 <= j < i ==> entries@[j].0@ != k@,
            None => forall|j: int| 0 <= j < entries@.len() ==> entries@[j].0@ != k@,
        },
{
    let mut i: usize = 0;
    while i < entries.len()
        invariant
            i <= entries@.len(),
            forall|j: int| 0 <= j < i ==> entries@[j].0@ != k@,
        decreases entries@.len() - i,
    {
        if str_eq(entries[i].0.as_str(), k) {
            return Some(i);
        }
        i += 1;
    }
    None
}

/// Insert a keyed entry, replacing the entry with the same key if one is
/// present and appending otherwise; returns the index written.
pub fn upsert<V>(entries: &mut Vec<(String, V)>, k: String, v: V) -> (idx: usize)
    requires
        distinct_keys(old(entries)@),
    ensures
        distinct_keys(final(entries)@),
        idx < final(entries)@.len(),
        final(entries)@[idx as int].0 == k,
        final(entries)@[idx as int].1 == v,
        forall|j: int|
            0 <= j < final(entries)@.len() && j != idx ==> final(entries)@[j] == old(entries)@[j],
        has_key(old(entries)@, k@) ==> final(entries)@.len() == old(entries)@.len() && old(
            entries,
        )@[idx as int].0@ == k@,
        !has_key(old(entries)@, k@) ==> idx == old(entries)@.len() && final(entries)@.len() == old(
            entries,
        )@.len() + 1,
        forall|p: Seq<char>|
            has_key(final(entries)@, p) <==> has_key(old(entries)@, p) || p == k@,
{
    let found = find_key(entries, k.as_str());
    match found {
        Some(i) => {
            let ghost pre = entries@;
            entries.remove(i);
            entries.insert(i, (k, v));
            proof {
                assert(entries@ =~= pre.update(i as int, entries@[i as int]));
                assert forall|p: Seq<char>|
                    has_key(entries@, p) <==> has_key(pre, p) || p == entries@[i as int].0@ by {
                    if has_key(entries@, p) {
                        let w = choose|w: int| 0 <= w < entries@.len() && entries@[w].0@ == p;
                        if w != i {
                            assert(pre[w].0@ == p);
                        }
                    }
                    if has_key(pre, p) {
                        let w = choose|w: int| 0 <= w < pre.len() && pre[w].0@ == p;
                        if w != i {
                            assert(entries@[w].0@ == p);
                        } else {
                            assert(entries@[i as int].0@ == p);
                        }
                    }
                }
            }
            i
        },
        None => {
            let idx = entries.len();
            let ghost pre = entries@;
            entries.push((k, v));
            proof {
                assert forall|p: Seq<char>| has_key(entries@, p) <==> has_key(pre, p) || p
                    == k@ by {
                    assert(entries@[pre.len() as int].0@ == k@);
                    if has_key(entries@, p) {
                        let w = choose|w: int| 0 <= w < entries@.len() && entries@[w].0@ == p;
                        if w < pre.len() {
                            assert(pre[w].0@ == p);
                        }
                    }
                    if has_key(pre, p) {
                        let w = choose|w: int| 0 <= w < pre.len() && pre[w].0@ == p;
                        assert(entries@[w].0@ == p);
                    }
                }
            }
            idx
        },
    }
}

/// Updating the entry at an index, keeping its key, changes what the
/// lookup yields for that key alone.
pub proof fn lemma_assoc_get_update<V>(s: Seq<(String, V)>, i: int, p: (String, V), o: Seq<char>)
    requires
        0 <= i < s.len(),
        p.0@ == s[i].0@,
    ensures
        o != p.0@ ==> assoc_get(s.update(i, p), o) == assoc_get(s, o),
        (o == p.0@ && (forall|j: int| 0 <= j < i ==> s[j].0@ != o)) ==> assoc_get(s.update(i, p), o)
            == Some(p.1),
    decreases s.len(),
{
    let s2 = s.update(i, p);
    if i == 0 {
        assert(s2.drop_first() =~= s.drop_first());
    } else {
        assert(s2[0] == s[0]);
        if s[0].0@ != o {
            assert(s2.drop_first() =~= s.drop_first().update(i - 1, p));
            lemma_assoc_get_update(s.drop_first(), i - 1, p, o);
            assert forall|j: int| 0 <= j < i - 1 && (forall|j2: int| 0 <= j2 < i ==> s[j2].0@ != o)
                implies s.drop_first()[j].0@ != o by {
                assert(s.drop_first()[j] == s[j + 1]);
            }
        }
    }
}

/// A successful lookup is witnessed by an entry holding the key and the
/// value.
pub proof fn lemma_assoc_get_index<V>(s: Seq<(String, V)>, k: Seq<char>)
    requires
        assoc_get(s, k) is Some,
    ensures
        exists|i: int|
            0 <= i < s.len() && (#[trigger] s[i]).0@ == k && s[i].1 == assoc_get(s, k)->0,
    decreases s.len(),
{
    if s.len() > 0 {
        if s[0].0@ == k {
            assert(s[0].0@ == k && s[0].1 == assoc_get(s, k)->0);
        } else {
            lemma_assoc_get_index(s.drop_first(), k);
            let i = choose|i: int|
                0 <= i < s.drop_first().len() && (#[trigger] s.drop_first()[i]).0@ == k
                    && s.drop_first()[i].1 == assoc_get(s.drop_first(), k)->0;
            assert(s[i + 1] == s.drop_first()[i]);
            assert(s[i + 1].0@ == k && s[i + 1].1 == assoc_get(s, k)->0);
        }
    }
}

/// Removing the entry at an index leaves the lookup unchanged for every
/// other key.
pub proof fn lemma_assoc_get_remove<V>(s: Seq<(String, V)>, i: int, o: Seq<char>)
    requires
        0 <= i < s.len(),
        o != s[i].0@,
    ensures
        assoc_get(s.remove(i), o) == assoc_get(s, o),
    decreases s.len(),
{
    if i == 0 {
        assert(s.remove(0) =~= s.drop_first());
    } else {
        assert(s.remove(i)[0] == s[0]);
        if s[0].0@ != o {
            assert(s.remove(i).drop_first() =~= s.drop_first().remove(i - 1));
            lemma_assoc_get_remove(s.drop_first(), i - 1, o);
        }
    }
}

/// Appending an entry changes what the lookup yields only for a key not
/// present before.
pub proof fn lemma_assoc_get_push<V>(s: Seq<(String, V)>, p: (String, V), o: Seq<char>)
    ensures
        assoc_get(s.push(p), o) == (if assoc_get(s, o) is Some {
            assoc_get(s, o)
        } else if o == p.0@ {
            Some(p.1)
        } else {
            None
        }),
    decreases s.len(),
{
    let t = s.push(p);
    if s.len() == 0 {
        assert(t[0] == p);
        if p.0@ != o {
            assert(t.drop_first() =~= Seq::<(String, V)>::empty());
            assert(assoc_get(t, o) == assoc_get(t.drop_first(), o));
        }
        assert(assoc_get(s, o) == None::<V>);
    } else {
        assert(t[0] == s[0]);
        if s[0].0@ != o {
            assert(t.drop_first() =~= s.drop_first().push(p));
            lemma_assoc_get_push(s.drop_first(), p, o);
            assert(assoc_get(t, o) == assoc_get(t.drop_first(), o));
            assert(assoc_get(s, o) == assoc_get(s.drop_first(), o));
        } else {
            assert(assoc_get(t, o) == Some(s[0].1));
            assert(assoc_get(s, o) == Some(s[0].1));
        }
    }
}

/// Clones a vector of strings; string clones are exact, so the result
/// equals the input.
pub fn clone_string_vec(v: &Vec<String>) -> (r: Vec<String>)
    ensures
        r@ == v@,
{
    let mut r: Vec<String> = Vec::new();
    let mut i: usize = 0;
    while i < v.len()
        invariant
            i <= v@.len(),
            r@.len() == i,
            forall|j: int| 0 <= j < i ==> r@[j] == v@[j],
        decreases v@.len() - i,
    {
        r.push(v[i].clone());
        i += 1;
    }
    proof {
        assert(r@ =~= v@);
    }
    r
}

} // verus!
