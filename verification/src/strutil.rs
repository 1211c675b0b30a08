use vstd::prelude::*;

verus! {

/// Strict lexicographic order on character sequences, by code point.
/// This is the deterministic order in which deduplicated model reads are
/// rendered into a manifest.
pub open spec fn lex_lt(a: Seq<char>, b: Seq<char>) -> bool
    decreases a.len(),
{
    if b.len() == 0 {
        false
    } else if a.len() == 0 {
        true
    } else if (a[0] as int) < (b[0] as int) {
        true
    } else if (a[0] as int) > (b[0] as int) {
        false
    } else {
        lex_lt(a.drop_first(), b.drop_first())
    }
}

/// `lex_lt` is total: two sequences are ordered one way, the other way,
/// or equal.
pub proof fn lemma_lex_trichotomy(a: Seq<char>, b: Seq<char>)
    ensures
        lex_lt(a, b) || lex_lt(b, a) || a == b,
    decreases a.len(),
{
    if a.len() == 0 && b.len() == 0 {
        assert(a =~= b);
    } else if a.len() > 0 && b.len() > 0 {
        if a[0] == b[0] {
            lemma_lex_trichotomy(a.drop_first(), b.drop_first());
            if !lex_lt(a, b) && !lex_lt(b, a) {
                assert(a.drop_first() =~= b.drop_first());
                assert(a.len() == b.len());
                assert forall|i: int| 0 <= i < a.len() implies a[i] == b[i] by {
                    if i > 0 {
                        assert(a[i] == a.drop_first()[i - 1]);
                        assert(b[i] == b.drop_first()[i - 1]);
                    }
                }
                assert(a =~= b);
            }
        }
    }
}

/// `lex_lt` is transitive.
pub proof fn lemma_lex_trans(a: Seq<char>, b: Seq<char>, c: Seq<char>)
    requires
        lex_lt(a, b),
        lex_lt(b, c),
    ensures
        lex_lt(a, c),
    decreases a.len(),
{
    if a.len() > 0 && b.len() > 0 && c.len() > 0 {
        if a[0] == b[0] && b[0] == c[0] {
            lemma_lex_trans(a.drop_first(), b.drop_first(), c.drop_first());
        }
    }
}

/// `lex_lt` is asymmetric, hence irreflexive.
pub proof fn lemma_lex_asym(a: Seq<char>, b: Seq<char>)
    requires
        lex_lt(a, b),
    ensures
        !lex_lt(b, a),
        a != b,
    decreases a.len(),
{
    if a.len() > 0 && b.len() > 0 && a[0] == b[0] {
        lemma_lex_asym(a.drop_first(), b.drop_first());
        assert(a != b) by {
            if a == b {
                assert(a.drop_first() =~= b.drop_first());
            }
        }
    } else {
        if a == b {
            assert(a.len() == b.len());
        }
    }
}

/// Character-for-character string equality, specified over the views.
pub fn str_eq(a: &str, b: &str) -> (r: bool)
    ensures
        r == (a@ == b@),
{
    let alen = a.unicode_len();
    let blen = b.unicode_len();
    if alen != blen {
        return false;
    }
    let mut i: usize = 0;
    while i < alen
        invariant
            alen == a@.len(),
            blen == b@.len(),
            alen == blen,
            i <= alen,
            forall|j: int| 0 <= j < i ==> a@[j] == b@[j],
        decreases alen - i,
    {
        let ca = a.get_char(i);
        let cb = b.get_char(i);
        if ca != cb {
            proof {
                assert(a@[i as int] != b@[i as int]);
            }
            return false;
        }
        i += 1;
    }
    proof {
        assert(a@ =~= b@);
    }
    true
}

/// Decides `lex_lt` on the views of two strings.
pub fn str_lt(a: &str, b: &str) -> (r: bool)
    ensures
        r == lex_lt(a@, b@),
{
    let alen = a.unicode_len();
    let blen = b.unicode_len();
    let mut i: usize = 0;
    proof {
        assert(a@.skip(0) =~= a@);
        assert(b@.skip(0) =~= b@);
    }
    loop
        invariant
            alen == a@.len(),
            blen == b@.len(),
            i <= alen,
            i <= blen,
            lex_lt(a@, b@) == lex_lt(a@.skip(i as int), b@.skip(i as int)),
        decreases alen - i,
    {
        if i == blen {
            return false;
        }
        if i == alen {
            return true;
        }
        let ca = a.get_char(i);
        let cb = b.get_char(i);
        proof {
            assert(a@.skip(i as int)[0] == a@[i as int]);
            assert(b@.skip(i as int)[0] == b@[i as int]);
        }
        if (ca as u32) < (cb as u32) {
            return true;
        }
        if (ca as u32) > (cb as u32) {
            return false;
        }
        proof {
            assert(a@.skip(i as int).drop_first() =~= a@.skip(i + 1));
            assert(b@.skip(i as int).drop_first() =~= b@.skip(i + 1));
        }
        i += 1;
    }
}

/// Index of the first `::` separator in a qualified path, or the whole
/// length when none occurs; the prefix up to it is the owning package name.
pub open spec fn first_cut(s: Seq<char>) -> int
    decreases s.len(),
{
    if s.len() < 2 {
        s.len() as int
    } else if s[0] == ':' && s[1] == ':' {
        0
    } else {
        1 + first_cut(s.drop_first())
    }
}

pub proof fn lemma_first_cut_bounds(s: Seq<char>)
    ensures
        0 <= first_cut(s) <= s.len(),
    decreases s.len(),
{
    if s.len() >= 2 && !(s[0] == ':' && s[1] == ':') {
        lemma_first_cut_bounds(s.drop_first());
    }
}

fn first_sep_cut(s: &str) -> (r: usize)
    ensures
        r == first_cut(s@),
{
    let len = s.unicode_len();
    let mut i: usize = 0;
    proof {
        assert(s@.skip(0) =~= s@);
    }
    loop
        invariant
            len == s@.len(),
            i <= len,
            first_cut(s@) == i + first_cut(s@.skip(i as int)),
        decreases len - i,
    {
        if len - i < 2 {
            proof {
                assert(s@.skip(i as int).len() == len - i);
            }
            return len;
        }
        let c0 = s.get_char(i);
        let c1 = s.get_char(i + 1);
        proof {
            assert(s@.skip(i as int)[0] == s@[i as int]);
            assert(s@.skip(i as int)[1] == s@[i as int + 1]);
        }
        if c0 == ':' && c1 == ':' {
            return i;
        }
        proof {
            assert(s@.skip(i as int).drop_first() =~= s@.skip(i + 1));
        }
        i += 1;
    }
}

/// The prefix of a qualified path before the first `::` separator.
pub fn package_part(s: &str) -> (r: String)
    ensures
        r@ == s@.take(first_cut(s@)),
{
    let cut = first_sep_cut(s);
    proof {
        lemma_first_cut_bounds(s@);
        assert(s@.take(cut as int) =~= s@.subrange(0, cut as int));
    }
    let seg = s.substring_char(0, cut);
    seg.to_owned()
}

/// Start index of the last path segment: the index just after the last
/// `::` separator, or `0` when the path has none.
pub open spec fn last_start(s: Seq<char>) -> int
    decreases s.len(),
{
    if s.len() < 2 {
        0
    } else if s[s.len() - 2] == ':' && s[s.len() - 1] == ':' {
        s.len() as int
    } else {
        last_start(s.drop_last())
    }
}

pub proof fn lemma_last_start_bounds(s: Seq<char>)
    ensures
        0 <= last_start(s) <= s.len(),
    decreases s.len(),
{
    if s.len() >= 2 && !(s[s.len() - 2] == ':' && s[s.len() - 1] == ':') {
        lemma_last_start_bounds(s.drop_last());
    }
}

fn last_sep_start(s: &str) -> (r: usize)
    ensures
        r == last_start(s@),
{
    let len = s.unicode_len();
    let mut j: usize = len;
    proof {
        assert(s@.take(len as int) =~= s@);
    }
    loop
        invariant
            len == s@.len(),
            j <= len,
            last_start(s@) == last_start(s@.take(j as int)),
        decreases j,
    {
        if j < 2 {
            return 0;
        }
        let c0 = s.get_char(j - 2);
        let c1 = s.get_char(j - 1);
        proof {
            assert(s@.take(j as int)[j - 2] == s@[j - 2]);
            assert(s@.take(j as int)[j - 1] == s@[j - 1]);
        }
        if c0 == ':' && c1 == ':' {
            proof {
                lemma_last_start_bounds(s@);
            }
            return j;
        }
        proof {
            assert(s@.take(j as int).drop_last() =~= s@.take(j - 1));
        }
        j -= 1;
    }
}

/// The last segment of a qualified path; the whole path when it has no
/// `::` separator. Manifest and ABI file names are derived from it.
pub fn last_segment(s: &str) -> (r: String)
    ensures
        r@ == s@.skip(last_start(s@)),
{
    let start = last_sep_start(s);
    proof {
        lemma_last_start_bounds(s@);
    }
    let len = s.unicode_len();
    proof {
        assert(s@.skip(start as int) =~= s@.subrange(start as int, len as int));
    }
    let seg = s.substring_char(start, len);
    seg.to_owned()
}

/// The enclosing module of a qualified path: everything before the last
/// `::` separator, or empty for a top-level path.
pub open spec fn parent_of(s: Seq<char>) -> Seq<char> {
    if last_start(s) >= 2 {
        s.take(last_start(s) - 2)
    } else {
        Seq::<char>::empty()
    }
}

pub fn parent_path(s: &str) -> (r: String)
    ensures
        r@ == parent_of(s@),
{
    let start = last_sep_start(s);
    proof {
        lemma_last_start_bounds(s@);
    }
    if start >= 2 {
        proof {
            assert(s@.take(start - 2) =~= s@.subrange(0, start - 2));
        }
        let seg = s.substring_char(0, start - 2);
        seg.to_owned()
    } else {
        proof {
            assert(Seq::<char>::empty() =~= parent_of(s@));
        }
        String::new()
    }
}

} // verus!
