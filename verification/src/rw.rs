use vstd::prelude::*;

use crate::assoc::assoc_get;
use crate::assoc::clone_string_vec;
use crate::assoc::find_key;
use crate::assoc::lemma_assoc_get_at;
use crate::assoc::lemma_assoc_get_some;
use crate::assoc::views_of;
use crate::strutil::lemma_lex_trans;
use crate::strutil::lemma_lex_trichotomy;
use crate::strutil::lex_lt;
use crate::strutil::str_eq;
use crate::strutil::str_lt;

verus! {

/// The side record, produced by the compilation phase before this stage
/// runs, of which models each contract module reads and which write
/// operations it performs; read-only here.
pub struct RwRecord {
    pub reads: Vec<(String, Vec<String>)>,
    pub writes: Vec<(String, Vec<String>)>,
}

/// Strictly ascending in the lexicographic order; strictness makes the
/// sequence duplicate-free.
pub open spec fn strictly_sorted(v: Seq<Seq<char>>) -> bool {
    forall|i: int, j: int| 0 <= i < j < v.len() ==> lex_lt(v[i], v[j])
}

/// The two sequences hold the same values, duplicates and order aside.
pub open spec fn same_members(a: Seq<Seq<char>>, b: Seq<Seq<char>>) -> bool {
    forall|x: Seq<char>| a.contains(x) <==> b.contains(x)
}

/// The reads recorded for a contract path; absence of a record means no
/// reads.
pub open spec fn recorded_reads(rw: RwRecord, path: Seq<char>) -> Seq<Seq<char>> {
    match assoc_get(rw.reads@, path) {
        Some(v) => views_of(v@),
        None => Seq::<Seq<char>>::empty(),
    }
}

/// The write descriptors recorded for a contract path, in the order
/// encountered; absence of a record means no writes.
pub open spec fn recorded_writes(rw: RwRecord, path: Seq<char>) -> Seq<Seq<char>> {
    match assoc_get(rw.writes@, path) {
        Some(v) => views_of(v@),
        None => Seq::<Seq<char>>::empty(),
    }
}

fn insert_sorted_unique(out: &mut Vec<String>, s: String)
    requires
        strictly_sorted(views_of(old(out)@)),
    ensures
        strictly_sorted(views_of(final(out)@)),
        forall|x: Seq<char>|
            views_of(final(out)@).contains(x) <==> (views_of(old(out)@).contains(x) || x == s@),
{
    let ghost vold = views_of(out@);
    let mut i: usize = 0;
    while i < out.len() && str_lt(out[i].as_str(), s.as_str())
        invariant
            vold == views_of(out@),
            out@ == old(out)@,
            i <= out@.len(),
            forall|j: int| 0 <= j < i ==> lex_lt(vold[j], s@),
        decreases out@.len() - i,
    {
        proof {
            assert(vold[i as int] == out@[i as int]@);
        }
        i += 1;
    }
    if i < out.len() {
        if str_eq(out[i].as_str(), s.as_str()) {
            proof {
                assert(views_of(out@)[i as int] == s@);
                assert(views_of(out@).contains(s@));
            }
            return ;
        }
    }
    let ghost pre = out@;
    out.insert(i, s);
    proof {
        let vnew = views_of(out@);
        assert(out@ =~= pre.insert(i as int, s));
        assert forall|j: int| 0 <= j < vnew.len() implies vnew[j] == (if j < i {
            vold[j]
        } else if j == i {
            s@
        } else {
            vold[j - 1]
        }) by {
            assert(vnew[j] == out@[j]@);
        }
        if i < vold.len() {
            assert(!lex_lt(vold[i as int], s@));
            assert(vold[i as int] != s@);
            lemma_lex_trichotomy(s@, vold[i as int]);
        }
        assert forall|a: int, b: int| 0 <= a < b < vnew.len() implies lex_lt(vnew[a], vnew[b]) by {
            if b < i {
            } else if a < i && b == i {
            } else if a == i && b > i {
                if b - 1 > i {
                    lemma_lex_trans(s@, vold[i as int], vold[b - 1]);
                }
            } else if a < i && b > i {
                assert(lex_lt(vold[a], vold[b - 1]));
            } else {
                assert(lex_lt(vold[a - 1], vold[b - 1]));
            }
        }
        assert forall|x: Seq<char>| vnew.contains(x) implies (vold.contains(x) || x == s@) by {
            let idx = choose|idx: int| 0 <= idx < vnew.len() && vnew[idx] == x;
            if idx < i {
                assert(vold[idx] == x);
            } else if idx > i {
                assert(vold[idx - 1] == x);
            }
        }
        assert forall|x: Seq<char>| vold.contains(x) implies vnew.contains(x) by {
            let idx = choose|idx: int| 0 <= idx < vold.len() && vold[idx] == x;
            if idx < i {
                assert(vnew[idx] == x);
            } else {
                assert(vnew[idx + 1] == x);
            }
        }
        assert(vnew[i as int] == s@);
        assert(vnew.contains(s@));
    }
}

/// Deduplicates recorded reads and renders them in the deterministic
/// lexicographic order.
pub fn normalize_reads(v: &Vec<String>) -> (r: Vec<String>)
    ensures
        strictly_sorted(views_of(r@)),
        same_members(views_of(r@), views_of(v@)),
{
    let mut out: Vec<String> = Vec::new();
    let mut i: usize = 0;
    while i < v.len()
        invariant
            i <= v@.len(),
            strictly_sorted(views_of(out@)),
            same_members(views_of(out@), views_of(v@.take(i as int))),
        decreases v@.len() - i,
    {
        let ghost taken = views_of(v@.take(i as int));
        insert_sorted_unique(&mut out, v[i].clone());
        proof {
            let next = views_of(v@.take(i + 1));
            assert forall|x: Seq<char>| next.contains(x) implies (taken.contains(x) || x == v@[
                i as int
            ]@) by {
                let idx = choose|idx: int| 0 <= idx < next.len() && next[idx] == x;
                if idx < i {
                    assert(taken[idx] == x);
                }
            }
            assert forall|x: Seq<char>| taken.contains(x) implies next.contains(x) by {
                let idx = choose|idx: int| 0 <= idx < taken.len() && taken[idx] == x;
                assert(next[idx] == x);
            }
            assert(next[i as int] == v@[i as int]@);
            assert(next.contains(v@[i as int]@));
        }
        i += 1;
    }
    proof {
        assert(v@.take(v@.len() as int) =~= v@);
    }
    out
}

/// The reads attached to a contract manifest: the recorded reads for its
/// path, deduplicated into a set and rendered as a deterministic,
/// lexicographically ordered sequence.
pub fn reads_for(rw: &RwRecord, path: &str) -> (r: Vec<String>)
    ensures
        strictly_sorted(views_of(r@)),
        same_members(views_of(r@), recorded_reads(*rw, path@)),
{
    let found = find_key(&rw.reads, path);
    match found {
        Some(i) => {
            proof {
                lemma_assoc_get_at(rw.reads@, path@, i as int);
            }
            normalize_reads(&rw.reads[i].1)
        },
        None => {
            proof {
                lemma_assoc_get_some(rw.reads@, path@);
            }
            Vec::new()
        },
    }
}

/// The writes attached to a contract manifest: the recorded write
/// descriptors for its path, in the order encountered, without forced
/// deduplication.
pub fn writes_for(rw: &RwRecord, path: &str) -> (r: Vec<String>)
    ensures
        views_of(r@) == recorded_writes(*rw, path@),
{
    let found = find_key(&rw.writes, path);
    match found {
        Some(i) => {
            proof {
                lemma_assoc_get_at(rw.writes@, path@, i as int);
            }
            clone_string_vec(&rw.writes[i].1)
        },
        None => {
            proof {
                lemma_assoc_get_some(rw.writes@, path@);
                assert(views_of(Seq::<String>::empty()) =~= Seq::<Seq<char>>::empty());
            }
            Vec::new()
        },
    }
}

} // verus!
