use vstd::prelude::*;

use crate::aggregate::aggregate_ok;
use crate::aggregate::cv_group;
use crate::aggregate::final_contract_ok;
use crate::aggregate::BuildOutput;
use crate::assoc::assoc_get;
use crate::assoc::has_key;
use crate::classify::ModuleScan;
use crate::registry::ArtifactRegistry;
use crate::rw::same_members;
use crate::rw::strictly_sorted;
use crate::rw::RwRecord;
use crate::strutil::lemma_lex_asym;
use crate::strutil::lemma_lex_trans;
use crate::strutil::lex_lt;

verus! {

/// A set of names has exactly one rendering as a strictly sorted
/// sequence: two such sequences with the same members are equal. This
/// is what makes the deduplicated read list deterministic.
pub proof fn lemma_sorted_unique(a: Seq<Seq<char>>, b: Seq<Seq<char>>)
    requires
        strictly_sorted(a),
        strictly_sorted(b),
        same_members(a, b),
    ensures
        a == b,
    decreases a.len(),
{
    if a.len() == 0 && b.len() == 0 {
        assert(a =~= b);
    } else if a.len() == 0 {
        assert(b.contains(b[0]));
        assert(a.contains(b[0]));
        assert(false);
    } else if b.len() == 0 {
        assert(a.contains(a[0]));
        assert(b.contains(a[0]));
        assert(false);
    } else {
        assert(a.contains(a[0]));
        assert(b.contains(a[0]));
        let j = choose|j: int| 0 <= j < b.len() && b[j] == a[0];
        assert(b.contains(b[0]));
        assert(a.contains(b[0]));
        let i = choose|i: int| 0 <= i < a.len() && a[i] == b[0];
        if j > 0 {
            assert(lex_lt(b[0], b[j]));
            if i > 0 {
                assert(lex_lt(a[0], a[i]));
                lemma_lex_trans(a[0], b[0], a[0]);
                lemma_lex_asym(a[0], a[0]);
                assert(false);
            } else {
                lemma_lex_asym(b[0], a[0]);
                assert(false);
            }
        }
        assert(a[0] == b[0]);
        let at = a.drop_first();
        let bt = b.drop_first();
        assert forall|x: Seq<char>| at.contains(x) implies bt.contains(x) by {
            let w = choose|w: int| 0 <= w < at.len() && at[w] == x;
            assert(a[w + 1] == x);
            assert(a.contains(x));
            assert(b.contains(x));
            let v = choose|v: int| 0 <= v < b.len() && b[v] == x;
            if v == 0 {
                assert(lex_lt(a[0], a[w + 1]));
                lemma_lex_asym(a[0], a[w + 1]);
                assert(false);
            }
            assert(bt[v - 1] == x);
        }
        assert forall|x: Seq<char>| bt.contains(x) implies at.contains(x) by {
            let w = choose|w: int| 0 <= w < bt.len() && bt[w] == x;
            assert(b[w + 1] == x);
            assert(b.contains(x));
            assert(a.contains(x));
            let v = choose|v: int| 0 <= v < a.len() && a[v] == x;
            if v == 0 {
                assert(lex_lt(b[0], b[w + 1]));
                lemma_lex_asym(b[0], b[w + 1]);
                assert(false);
            }
            assert(at[v - 1] == x);
        }
        assert forall|i2: int, j2: int| 0 <= i2 < j2 < at.len() implies lex_lt(at[i2], at[j2]) by {
            assert(at[i2] == a[i2 + 1] && at[j2] == a[j2 + 1]);
        }
        assert forall|i2: int, j2: int| 0 <= i2 < j2 < bt.len() implies lex_lt(bt[i2], bt[j2]) by {
            assert(bt[i2] == b[i2 + 1] && bt[j2] == b[j2 + 1]);
        }
        lemma_sorted_unique(at, bt);
        assert(a.len() == b.len());
        assert forall|k: int| 0 <= k < a.len() implies a[k] == b[k] by {
            if k > 0 {
                assert(a[k] == at[k - 1]);
                assert(b[k] == bt[k - 1]);
            }
        }
        assert(a =~= b);
    }
}

/// Determinism of aggregation: two outputs that both satisfy the
/// aggregation contract for the same registry, module scan and
/// read/write record agree everywhere: the same keys are present, and
/// for each key the whole contract or model manifest and its ABI
/// document coincide.
pub proof fn lemma_aggregate_deterministic(
    reg: ArtifactRegistry,
    rw: RwRecord,
    modules: Seq<ModuleScan>,
    out1: BuildOutput,
    out2: BuildOutput,
)
    requires
        aggregate_ok(reg, rw, modules, out1),
        aggregate_ok(reg, rw, modules, out2),
    ensures
        forall|s: int|
            0 <= s < 3 ==> (#[trigger] out1.system@[s]).0@ == out2.system@[s].0@
                && out1.system@[s].1.deep_view() == out2.system@[s].1.deep_view(),
        forall|p: Seq<char>|
            #![trigger has_key(out1.contracts@, p), has_key(out2.contracts@, p)]
            has_key(out1.contracts@, p) <==> has_key(out2.contracts@, p),
        forall|q: Seq<char>|
            #![trigger has_key(out1.models@, q), has_key(out2.models@, q)]
            has_key(out1.models@, q) <==> has_key(out2.models@, q),
        forall|p: Seq<char>|
            #![trigger assoc_get(out1.contracts@, p), assoc_get(out2.contracts@, p)]
            (assoc_get(out1.contracts@, p) is Some && assoc_get(out2.contracts@, p) is Some) ==> {
                let v1 = assoc_get(out1.contracts@, p)->0;
                let v2 = assoc_get(out2.contracts@, p)->0;
                v1.0@ == v2.0@ && v1.1.deep_view() == v2.1.deep_view()
            },
        forall|q: Seq<char>|
            #![trigger assoc_get(out1.models@, q), assoc_get(out2.models@, q)]
            (assoc_get(out1.models@, q) is Some && assoc_get(out2.models@, q) is Some) ==> {
                let v1 = assoc_get(out1.models@, q)->0;
                let v2 = assoc_get(out2.models@, q)->0;
                v1.0@ == v2.0@ && v1.1.deep_view() == v2.1.deep_view()
            },
{
    assert forall|q: Seq<char>|
        #![trigger assoc_get(out1.models@, q), assoc_get(out2.models@, q)]
        (assoc_get(out1.models@, q) is Some && assoc_get(out2.models@, q) is Some) implies {
        let v1 = assoc_get(out1.models@, q)->0;
        let v2 = assoc_get(out2.models@, q)->0;
        v1.0@ == v2.0@ && v1.1.deep_view() == v2.1.deep_view()
    } by {
        let v1 = assoc_get(out1.models@, q)->0;
        let v2 = assoc_get(out2.models@, q)->0;
        assert(crate::aggregate::model_entry_ok(reg, modules, q, v1.0, v1.1));
        assert(crate::aggregate::model_entry_ok(reg, modules, q, v2.0, v2.1));
    }
    assert forall|p: Seq<char>|
        #![trigger assoc_get(out1.contracts@, p), assoc_get(out2.contracts@, p)]
        (assoc_get(out1.contracts@, p) is Some && assoc_get(out2.contracts@, p) is Some) implies {
        let v1 = assoc_get(out1.contracts@, p)->0;
        let v2 = assoc_get(out2.contracts@, p)->0;
        v1.0@ == v2.0@ && v1.1.deep_view() == v2.1.deep_view()
    } by {
        let v1 = assoc_get(out1.contracts@, p)->0;
        let v2 = assoc_get(out2.contracts@, p)->0;
        assert(final_contract_ok(reg, rw, modules, p, v1.0, v1.1));
        assert(final_contract_ok(reg, rw, modules, p, v2.0, v2.1));
        lemma_sorted_unique(v1.0@.reads, v2.0@.reads);
    }
}

/// Model precedence: a name aggregated as a model never remains in the
/// contract collection.
pub proof fn lemma_model_precedence(
    reg: ArtifactRegistry,
    rw: RwRecord,
    modules: Seq<ModuleScan>,
    out: BuildOutput,
)
    requires
        aggregate_ok(reg, rw, modules, out),
    ensures
        forall|p: Seq<char>|
            #![trigger has_key(out.models@, p)]
            has_key(out.models@, p) ==> !has_key(out.contracts@, p),
{
    assert forall|p: Seq<char>|
        #![trigger has_key(out.models@, p)]
        has_key(out.models@, p) implies !has_key(out.contracts@, p) by {
        if has_key(out.contracts@, p) {
            assert(false);
        }
    }
}

/// Computed-value attachment: every aggregated contract manifest holds
/// exactly the computed-value group that the submodules it encloses
/// declared, in scan order.
pub proof fn lemma_computed_attachment(
    reg: ArtifactRegistry,
    rw: RwRecord,
    modules: Seq<ModuleScan>,
    out: BuildOutput,
    p: Seq<char>,
)
    requires
        aggregate_ok(reg, rw, modules, out),
        assoc_get(out.contracts@, p) is Some,
    ensures
        (assoc_get(out.contracts@, p)->0).0@.computed == cv_group(modules, p),
{
    assert(final_contract_ok(
        reg,
        rw,
        modules,
        p,
        (assoc_get(out.contracts@, p)->0).0,
        (assoc_get(out.contracts@, p)->0).1,
    ));
}

} // verus!
