use vstd::prelude::*;

use crate::assoc::assoc_get;
use crate::assoc::distinct_keys;
use crate::assoc::find_key;
use crate::assoc::has_key;
use crate::assoc::lemma_assoc_get_at;
use crate::assoc::upsert;
use crate::classify::ann_declares_contract;
use crate::classify::ann_declares_model_unit;
use crate::classify::anns_declare_contract;
use crate::classify::anns_declare_model_unit;
use crate::classify::check_system_contract_name;
use crate::classify::is_system_contract_name;
use crate::classify::lemma_anns_declare_contract_push;
use crate::classify::lemma_anns_declare_model_push;
use crate::classify::model_full_path;
use crate::classify::model_unit_path;
use crate::classify::module_declares_contract;
use crate::classify::module_declares_model_unit;
use crate::classify::ModuleAnnotation;
use crate::classify::ModuleScan;
use crate::error::BuildError;
use crate::error::Diagnostic;
use crate::manifest::clone_members;
use crate::manifest::clone_opt_string;
use crate::manifest::ClassManifest;
use crate::rw::reads_for;
use crate::rw::recorded_reads;
use crate::rw::recorded_writes;
use crate::rw::same_members;
use crate::rw::strictly_sorted;
use crate::rw::writes_for;
use crate::rw::RwRecord;
use crate::strutil::parent_path;
use crate::manifest::clone_cves;
use crate::manifest::cve_views;
use crate::manifest::ComputedValueEntrypoint;
use crate::manifest::ContractManifest;
use crate::manifest::CveView;
use crate::manifest::ModelManifest;
use crate::registry::ArtifactRegistry;
use crate::strutil::parent_of;

verus! {

/// The computed-value entrypoints contributed by one annotation of the
/// module at `path`.
pub open spec fn cv_of_ann(path: Seq<char>, ann: ModuleAnnotation) -> Seq<CveView> {
    match ann {
        ModuleAnnotation::ComputedValueTag { entrypoint, model } => seq![
            CveView { contract: path, entrypoint: entrypoint@, model: model@ },
        ],
        _ => Seq::<CveView>::empty(),
    }
}

pub open spec fn cv_of_anns(path: Seq<char>, anns: Seq<ModuleAnnotation>) -> Seq<CveView>
    decreases anns.len(),
{
    if anns.len() == 0 {
        Seq::<CveView>::empty()
    } else {
        cv_of_ann(path, anns[0]) + cv_of_anns(path, anns.drop_first())
    }
}

/// The computed-value entrypoints a module contributes; only submodules
/// can own computed values.
pub open spec fn cv_of_module(m: ModuleScan) -> Seq<CveView> {
    if m.is_submodule {
        cv_of_anns(m.qualified_path@, m.annotations@)
    } else {
        Seq::<CveView>::empty()
    }
}

/// The owner of a module's computed values: its enclosing module.
pub open spec fn cv_owner(m: ModuleScan) -> Seq<char> {
    parent_of(m.qualified_path@)
}

/// All computed-value entrypoints owned by `owner`, in scan order.
pub open spec fn cv_group(modules: Seq<ModuleScan>, owner: Seq<char>) -> Seq<CveView>
    decreases modules.len(),
{
    if modules.len() == 0 {
        Seq::<CveView>::empty()
    } else {
        (if cv_owner(modules[0]) == owner {
            cv_of_module(modules[0])
        } else {
            Seq::<CveView>::empty()
        }) + cv_group(modules.drop_first(), owner)
    }
}

/// The group held for an owner in the accumulated collection.
pub open spec fn cv_list(
    entries: Seq<(String, Vec<ComputedValueEntrypoint>)>,
    owner: Seq<char>,
) -> Seq<CveView> {
    match assoc_get(entries, owner) {
        Some(v) => cve_views(v@),
        None => Seq::<CveView>::empty(),
    }
}

pub proof fn lemma_cv_of_anns_push(path: Seq<char>, anns: Seq<ModuleAnnotation>, a: ModuleAnnotation)
    ensures
        cv_of_anns(path, anns.push(a)) == cv_of_anns(path, anns) + cv_of_ann(path, a),
    decreases anns.len(),
{
    if anns.len() == 0 {
        assert(anns.push(a)[0] == a);
        assert(anns.push(a).drop_first() =~= anns);
        assert(cv_of_anns(path, anns) == Seq::<CveView>::empty());
        assert(cv_of_anns(path, anns.push(a)) == cv_of_ann(path, a) + cv_of_anns(path, anns));
        assert(cv_of_ann(path, a) + Seq::<CveView>::empty() =~= Seq::<CveView>::empty() + cv_of_ann(
            path,
            a,
        ));
    } else {
        assert(anns.push(a)[0] == anns[0]);
        assert(anns.push(a).drop_first() =~= anns.drop_first().push(a));
        lemma_cv_of_anns_push(path, anns.drop_first(), a);
        assert(cv_of_anns(path, anns.push(a)) == cv_of_ann(path, anns[0]) + cv_of_anns(
            path,
            anns.drop_first().push(a),
        ));
        assert(cv_of_ann(path, anns[0]) + (cv_of_anns(path, anns.drop_first()) + cv_of_ann(
            path,
            a,
        )) =~= (cv_of_ann(path, anns[0]) + cv_of_anns(path, anns.drop_first())) + cv_of_ann(
            path,
            a,
        ));
    }
}

pub proof fn lemma_cv_group_push(modules: Seq<ModuleScan>, m: ModuleScan, owner: Seq<char>)
    ensures
        cv_group(modules.push(m), owner) == cv_group(modules, owner) + (if cv_owner(m) == owner {
            cv_of_module(m)
        } else {
            Seq::<CveView>::empty()
        }),
    decreases modules.len(),
{
    let ghost hm: Seq<CveView> = if cv_owner(m) == owner {
        cv_of_module(m)
    } else {
        Seq::<CveView>::empty()
    };
    if modules.len() == 0 {
        assert(modules.push(m)[0] == m);
        assert(modules.push(m).drop_first() =~= modules);
        assert(cv_group(modules, owner) == Seq::<CveView>::empty());
        assert(cv_group(modules.push(m), owner) == hm + cv_group(modules, owner));
        assert(hm + Seq::<CveView>::empty() =~= Seq::<CveView>::empty() + hm);
    } else {
        let ghost h0: Seq<CveView> = if cv_owner(modules[0]) == owner {
            cv_of_module(modules[0])
        } else {
            Seq::<CveView>::empty()
        };
        assert(modules.push(m)[0] == modules[0]);
        assert(modules.push(m).drop_first() =~= modules.drop_first().push(m));
        lemma_cv_group_push(modules.drop_first(), m, owner);
        assert(cv_group(modules.push(m), owner) == h0 + cv_group(modules.drop_first().push(m), owner));
        assert(h0 + (cv_group(modules.drop_first(), owner) + hm) =~= (h0 + cv_group(
            modules.drop_first(),
            owner,
        )) + hm);
    }
}

/// Appends one computed-value entrypoint to its owner's group.
fn record_cv(
    computed: &mut Vec<(String, Vec<ComputedValueEntrypoint>)>,
    owner: String,
    e: ComputedValueEntrypoint,
)
    requires
        distinct_keys(old(computed)@),
        forall|g: int| 0 <= g < old(computed)@.len() ==> (#[trigger] old(computed)@[g]).1@.len() >= 1,
    ensures
        distinct_keys(final(computed)@),
        forall|g: int| 0 <= g < final(computed)@.len() ==> (#[trigger] final(computed)@[g]).1@.len() >= 1,
        forall|o: Seq<char>|
            #![trigger cv_list(final(computed)@, o)]
            cv_list(final(computed)@, o) == (if o == owner@ {
                cv_list(old(computed)@, o).push(e@)
            } else {
                cv_list(old(computed)@, o)
            }),
{
    let ghost eview = e@;
    let found = find_key(computed, owner.as_str());
    match found {
        Some(i) => {
            let ghost pre = computed@;
            let mut entry = computed.remove(i);
            entry.1.push(e);
            computed.insert(i, entry);
            proof {
                assert(computed@ =~= pre.update(i as int, computed@[i as int]));
                assert(computed@[i as int].0@ == owner@);
                assert(cve_views(computed@[i as int].1@) =~= cve_views(pre[i as int].1@).push(
                    eview,
                ));
                assert forall|o: Seq<char>|
                    #![trigger cv_list(computed@, o)]
                    cv_list(computed@, o) == (if o == owner@ {
                        cv_list(pre, o).push(eview)
                    } else {
                        cv_list(pre, o)
                    }) by {
                    crate::assoc::lemma_assoc_get_update(
                        pre,
                        i as int,
                        computed@[i as int],
                        o,
                    );
                    if o == owner@ {
                        lemma_assoc_get_at(pre, o, i as int);
                    }
                }
            }
        },
        None => {
            let ghost pre = computed@;
            let mut group: Vec<ComputedValueEntrypoint> = Vec::new();
            group.push(e);
            computed.push((owner, group));
            proof {
                let p = computed@[pre.len() as int];
                assert(computed@ =~= pre.push(p));
                assert(p.0@ == owner@);
                assert(cve_views(p.1@) =~= Seq::<CveView>::empty().push(eview));
                assert forall|o: Seq<char>|
                    #![trigger cv_list(computed@, o)]
                    cv_list(computed@, o) == (if o == owner@ {
                        cv_list(pre, o).push(eview)
                    } else {
                        cv_list(pre, o)
                    }) by {
                    crate::assoc::lemma_assoc_get_push(pre, p, o);
                    if o == owner@ {
                        crate::assoc::lemma_assoc_get_some(pre, o);
                        assert(cv_list(pre, o) =~= Seq::<CveView>::empty());
                    }
                }
            }
        },
    }
}

/// A path that the aggregation keys a user-contract manifest under: a
/// module at that path declares a non-system contract and the registry
/// holds its compiled artifact.
pub open spec fn is_contract_path(
    reg: ArtifactRegistry,
    modules: Seq<ModuleScan>,
    p: Seq<char>,
) -> bool {
    has_key(reg.entries@, p) && exists|i: int|
        0 <= i < modules.len() && (#[trigger] modules[i]).qualified_path@ == p
            && module_declares_contract(modules[i])
}

/// A path that the aggregation keys a model manifest under: a module
/// declares a model whose compiled unit path it is, and the registry
/// holds that unit.
pub open spec fn is_model_path(
    reg: ArtifactRegistry,
    modules: Seq<ModuleScan>,
    q: Seq<char>,
) -> bool {
    has_key(reg.entries@, q) && exists|i: int|
        0 <= i < modules.len() && module_declares_model_unit(#[trigger] modules[i], q)
}

/// Attaches each accumulated computed-value group to the contract
/// manifest it belongs to. A group whose owning contract manifest does
/// not exist is a fatal internal-consistency error.
fn attach_computed(
    contracts: &mut Vec<(String, (ContractManifest, Option<String>))>,
    computed: &Vec<(String, Vec<ComputedValueEntrypoint>)>,
) -> (r: Result<(), BuildError>)
    requires
        distinct_keys(old(contracts)@),
        distinct_keys(computed@),
    ensures
        match r {
            Ok(_) => {
                &&& distinct_keys(final(contracts)@)
                &&& final(contracts)@.len() == old(contracts)@.len()
                &&& forall|e: int|
                    0 <= e < final(contracts)@.len() ==> (#[trigger] final(contracts)@[e]).0 == old(contracts)@[e].0
                &&& forall|e: int|
                    0 <= e < final(contracts)@.len() ==> {
                        let nw = (#[trigger] final(contracts)@[e]).1;
                        let od = old(contracts)@[e].1;
                        nw.1.deep_view() == od.1.deep_view() && nw.0@.name == od.0@.name
                            && nw.0@.class_hash == od.0@.class_hash && nw.0@.abi == od.0@.abi
                            && nw.0@.reads == od.0@.reads && nw.0@.writes == od.0@.writes
                            && nw.0@.address == od.0@.address && nw.0@.computed == (
                        if has_key(computed@, final(contracts)@[e].0@) {
                            cv_list(computed@, final(contracts)@[e].0@)
                        } else {
                            od.0@.computed
                        })
                    }
                &&& forall|g: int|
                    0 <= g < computed@.len() ==> has_key(
                        old(contracts)@,
                        (#[trigger] computed@[g]).0@,
                    )
            },
            Err(err) => match err {
                BuildError::ComputedValueOwnerMissing { contract } => has_key(computed@, contract@)
                    && !has_key(old(contracts)@, contract@),
                _ => false,
            },
        },
{
    let mut g: usize = 0;
    while g < computed.len()
        invariant
            distinct_keys(computed@),
            distinct_keys(contracts@),
            g <= computed@.len(),
            contracts@.len() == old(contracts)@.len(),
            forall|e: int|
                0 <= e < contracts@.len() ==> (#[trigger] contracts@[e]).0 == old(contracts)@[e].0,
            forall|e: int|
                0 <= e < contracts@.len() ==> {
                    let nw = (#[trigger] contracts@[e]).1;
                    let od = old(contracts)@[e].1;
                    nw.1.deep_view() == od.1.deep_view() && nw.0@.name == od.0@.name
                        && nw.0@.class_hash == od.0@.class_hash && nw.0@.abi == od.0@.abi
                        && nw.0@.reads == od.0@.reads && nw.0@.writes == od.0@.writes
                        && nw.0@.address == od.0@.address && nw.0@.computed == (
                    if exists|t: int| 0 <= t < g && (#[trigger] computed@[t]).0@ == contracts@[e].0@ {
                        cv_list(computed@, contracts@[e].0@)
                    } else {
                        od.0@.computed
                    })
                },
            forall|t: int| 0 <= t < g ==> has_key(old(contracts)@, (#[trigger] computed@[t]).0@),
        decreases computed@.len() - g,
    {
        let key = &computed[g].0;
        let found = find_key(contracts, key.as_str());
        match found {
            Some(i) => {
                let ghost pre = contracts@;
                let grp = clone_cves(&computed[g].1);
                let entry = contracts.remove(i);
                let (k, (man, abi_doc)) = entry;
                let man2 = ContractManifest {
                    name: man.name,
                    class_hash: man.class_hash,
                    abi: man.abi,
                    reads: man.reads,
                    writes: man.writes,
                    computed: grp,
                    address: man.address,
                };
                contracts.insert(i, (k, (man2, abi_doc)));
                proof {
                    assert(contracts@ =~= pre.update(i as int, contracts@[i as int]));
                    assert(contracts@[i as int].0@ == computed@[g as int].0@);
                    lemma_assoc_get_at(computed@, computed@[g as int].0@, g as int);
                    assert(cv_list(computed@, computed@[g as int].0@) == cve_views(
                        computed@[g as int].1@,
                    ));
                }
            },
            None => {
                proof {
                    assert(computed@[g as int].0@ == key@);
                    if has_key(old(contracts)@, key@) {
                        let w = choose|w: int|
                            0 <= w < old(contracts)@.len() && old(contracts)@[w].0@ == key@;
                        assert(contracts@[w].0 == old(contracts)@[w].0);
                        assert(contracts@[w].0@ == key@);
                        assert(false);
                    }
                }
                return Err(
                    BuildError::ComputedValueOwnerMissing { contract: key.clone() },
                );
            },
        }
        g += 1;
    }
    Ok(())
}

/// Removes from the contract collection every key that also appears in
/// the model collection: model classification takes precedence.
fn drop_model_keys(
    contracts: &mut Vec<(String, (ContractManifest, Option<String>))>,
    models: &Vec<(String, (ModelManifest, Option<String>))>,
)
    requires
        distinct_keys(old(contracts)@),
    ensures
        distinct_keys(final(contracts)@),
        forall|p: Seq<char>|
            #![trigger has_key(final(contracts)@, p)]
            has_key(final(contracts)@, p) <==> (has_key(old(contracts)@, p) && !has_key(
                models@,
                p,
            )),
        forall|p: Seq<char>|
            #![trigger assoc_get(final(contracts)@, p)]
            has_key(final(contracts)@, p) ==> assoc_get(final(contracts)@, p) == assoc_get(
                old(contracts)@,
                p,
            ),
{
    let mut g: usize = 0;
    while g < models.len()
        invariant
            distinct_keys(contracts@),
            g <= models@.len(),
            forall|p: Seq<char>|
                #![trigger has_key(contracts@, p)]
                has_key(contracts@, p) <==> (has_key(old(contracts)@, p) && !has_key(
                    models@.take(g as int),
                    p,
                )),
            forall|p: Seq<char>|
                #![trigger assoc_get(contracts@, p)]
                has_key(contracts@, p) ==> assoc_get(contracts@, p) == assoc_get(
                    old(contracts)@,
                    p,
                ),
        decreases models@.len() - g,
    {
        let ghost taken = models@.take(g as int);
        let ghost next = models@.take(g + 1);
        proof {
            assert(next =~= taken.push(models@[g as int]));
            assert forall|p: Seq<char>|
                has_key(next, p) <==> (has_key(taken, p) || p == models@[g as int].0@) by {
                assert(next[g as int].0@ == models@[g as int].0@);
                if has_key(next, p) {
                    let w = choose|w: int| 0 <= w < next.len() && next[w].0@ == p;
                    if w < g {
                        assert(taken[w].0@ == p);
                    }
                }
                if has_key(taken, p) {
                    let w = choose|w: int| 0 <= w < taken.len() && taken[w].0@ == p;
                    assert(next[w].0@ == p);
                }
            }
        }
        let found = find_key(contracts, models[g].0.as_str());
        match found {
            Some(i) => {
                let ghost pre = contracts@;
                contracts.remove(i);
                proof {
                    assert forall|p: Seq<char>|
                        #![trigger has_key(contracts@, p)]
                        has_key(contracts@, p) <==> (has_key(pre, p) && p != pre[i as int].0@) by {
                        if has_key(contracts@, p) {
                            let w = choose|w: int|
                                0 <= w < contracts@.len() && contracts@[w].0@ == p;
                            if w < i {
                                assert(pre[w].0@ == p);
                            } else {
                                assert(pre[w + 1].0@ == p);
                            }
                        }
                        if has_key(pre, p) && p != pre[i as int].0@ {
                            let w = choose|w: int| 0 <= w < pre.len() && pre[w].0@ == p;
                            if w < i {
                                assert(contracts@[w].0@ == p);
                            } else {
                                assert(contracts@[w - 1].0@ == p);
                            }
                        }
                    }
                    assert forall|p: Seq<char>|
                        #![trigger assoc_get(contracts@, p)]
                        has_key(contracts@, p) implies assoc_get(contracts@, p) == assoc_get(
                        old(contracts)@,
                        p,
                    ) by {
                        assert(has_key(pre, p) && p != pre[i as int].0@);
                        assert(contracts@ =~= pre.remove(i as int));
                        crate::assoc::lemma_assoc_get_remove(pre, i as int, p);
                    }
                }
            },
            None => {},
        }
        g += 1;
    }
    proof {
        assert(models@.take(models@.len() as int) =~= models@);
    }
}

/// Everything a contract manifest must hold right after the scan, before
/// computed-value attachment.
pub open spec fn contract_entry_ok(
    reg: ArtifactRegistry,
    rw: RwRecord,
    k: Seq<char>,
    man: ContractManifest,
    abi_doc: Option<String>,
) -> bool {
    &&& man@.name == k
    &&& man@.abi is None
    &&& man@.address is None
    &&& strictly_sorted(man@.reads)
    &&& same_members(man@.reads, recorded_reads(rw, k))
    &&& man@.writes == recorded_writes(rw, k)
    &&& match assoc_get(reg.entries@, k) {
        Some(a) => man@.class_hash == a.class_hash@ && abi_doc.deep_view() == a.abi.deep_view(),
        None => false,
    }
}

/// The modules-independent part of a model manifest's contract:
/// identity, and hash and ABI document from the registry.
pub open spec fn model_entry_core(
    reg: ArtifactRegistry,
    k: Seq<char>,
    man: ModelManifest,
    abi_doc: Option<String>,
) -> bool {
    &&& man@.name == k
    &&& man@.abi is None
    &&& match assoc_get(reg.entries@, k) {
        Some(a) => man@.class_hash == a.class_hash@ && abi_doc.deep_view() == a.abi.deep_view(),
        None => false,
    }
}

/// Everything a model manifest must hold: identity, hash and ABI from
/// the registry, and the members of the scan's last declaration of the
/// unit — a later declaration overrides an earlier one, which makes the
/// members deterministic.
pub open spec fn model_entry_ok(
    reg: ArtifactRegistry,
    modules: Seq<ModuleScan>,
    k: Seq<char>,
    man: ModelManifest,
    abi_doc: Option<String>,
) -> bool {
    &&& model_entry_core(reg, k, man, abi_doc)
    &&& Some(man@.members) == crate::classify::last_model_members(modules, k)
}

/// The last-declared members for `q` once the modules in `cur` are
/// fully scanned and the current module `m` through the given
/// annotation prefix.
pub open spec fn last_members_thru_anns(
    cur: Seq<ModuleScan>,
    m: ModuleScan,
    anns: Seq<ModuleAnnotation>,
    q: Seq<char>,
) -> Option<Seq<crate::manifest::MemberView>> {
    let head = crate::classify::last_model_members_in_anns(m, anns, q);
    if head is Some {
        head
    } else {
        crate::classify::last_model_members(cur, q)
    }
}

/// As `last_members_thru_anns`, additionally scanning a prefix of one
/// model annotation's declarations.
pub open spec fn last_members_thru_decls(
    cur: Seq<ModuleScan>,
    m: ModuleScan,
    anns: Seq<ModuleAnnotation>,
    decls: Seq<crate::classify::ModelDecl>,
    q: Seq<char>,
) -> Option<Seq<crate::manifest::MemberView>> {
    let head = crate::classify::last_model_members_in_decls(m, decls, q);
    if head is Some {
        head
    } else {
        last_members_thru_anns(cur, m, anns, q)
    }
}

/// Whether any name in the list is a non-system contract name.
fn any_user_contract_name(names: &Vec<String>) -> (r: bool)
    ensures
        r == exists|t: int|
            0 <= t < names@.len() && !is_system_contract_name((#[trigger] names@[t])@),
{
    let mut n: usize = 0;
    while n < names.len()
        invariant
            n <= names@.len(),
            forall|t: int| 0 <= t < n ==> is_system_contract_name((#[trigger] names@[t])@),
        decreases names@.len() - n,
    {
        if !check_system_contract_name(names[n].as_str()) {
            return true;
        }
        n += 1;
    }
    false
}

/// The classified collections produced by one pass over the modules.
pub struct ScanOutput {
    pub contracts: Vec<(String, (ContractManifest, Option<String>))>,
    pub models: Vec<(String, (ModelManifest, Option<String>))>,
    pub computed: Vec<(String, Vec<ComputedValueEntrypoint>)>,
    pub diagnostics: Vec<Diagnostic>,
}

/// Walks every module's annotations and buckets each into the contract,
/// model, or computed-value collection, against the artifact registry
/// and the read/write record.
pub fn scan_modules(reg: &ArtifactRegistry, modules: &Vec<ModuleScan>, rw: &RwRecord) -> (out:
    ScanOutput)
    ensures
        distinct_keys(out.contracts@),
        distinct_keys(out.models@),
        distinct_keys(out.computed@),
        forall|e: int|
            0 <= e < out.contracts@.len() ==> contract_entry_ok(
                *reg,
                *rw,
                (#[trigger] out.contracts@[e]).0@,
                out.contracts@[e].1.0,
                out.contracts@[e].1.1,
            ) && out.contracts@[e].1.0@.computed.len() == 0 && is_contract_path(
                *reg,
                modules@,
                out.contracts@[e].0@,
            ),
        forall|p: Seq<char>|
            #![trigger has_key(out.contracts@, p)]
            is_contract_path(*reg, modules@, p) ==> has_key(out.contracts@, p),
        forall|e: int|
            0 <= e < out.models@.len() ==> model_entry_ok(
                *reg,
                modules@,
                (#[trigger] out.models@[e]).0@,
                out.models@[e].1.0,
                out.models@[e].1.1,
            ),
        forall|q: Seq<char>|
            #![trigger has_key(out.models@, q)]
            is_model_path(*reg, modules@, q) ==> has_key(out.models@, q),
        forall|o: Seq<char>|
            #![trigger cv_list(out.computed@, o)]
            cv_list(out.computed@, o) == cv_group(modules@, o),
        forall|e: int| 0 <= e < out.computed@.len() ==> (#[trigger] out.computed@[e]).1@.len() >= 1,
        diag_ok(*reg, modules@, out.diagnostics@),
{
    let mut contracts: Vec<(String, (ContractManifest, Option<String>))> = Vec::new();
    let mut models: Vec<(String, (ModelManifest, Option<String>))> = Vec::new();
    let mut computed: Vec<(String, Vec<ComputedValueEntrypoint>)> = Vec::new();
    let mut diagnostics: Vec<Diagnostic> = Vec::new();
    let mut idx: usize = 0;
    proof {
        assert(modules@.take(0) =~= Seq::<ModuleScan>::empty());
    }
    while idx < modules.len()
        invariant
            idx <= modules@.len(),
            distinct_keys(contracts@),
            distinct_keys(models@),
            distinct_keys(computed@),
            forall|e: int|
                0 <= e < contracts@.len() ==> contract_entry_ok(
                    *reg,
                    *rw,
                    (#[trigger] contracts@[e]).0@,
                    contracts@[e].1.0,
                    contracts@[e].1.1,
                ) && contracts@[e].1.0@.computed.len() == 0 && is_contract_path(
                    *reg,
                    modules@.take(idx as int),
                    contracts@[e].0@,
                ),
            forall|p: Seq<char>|
                #![trigger has_key(contracts@, p)]
                is_contract_path(*reg, modules@.take(idx as int), p) ==> has_key(contracts@, p),
            forall|e: int|
                0 <= e < models@.len() ==> model_entry_ok(
                    *reg,
                    modules@.take(idx as int),
                    (#[trigger] models@[e]).0@,
                    models@[e].1.0,
                    models@[e].1.1,
                ),
            forall|q: Seq<char>|
                #![trigger has_key(models@, q)]
                is_model_path(*reg, modules@.take(idx as int), q) ==> has_key(models@, q),
            forall|o: Seq<char>|
                #![trigger cv_list(computed@, o)]
                cv_list(computed@, o) == cv_group(modules@.take(idx as int), o),
            forall|e: int| 0 <= e < computed@.len() ==> (#[trigger] computed@[e]).1@.len() >= 1,
            diag_ok(*reg, modules@.take(idx as int), diagnostics@),
        decreases modules@.len() - idx,
    {
        let ghost cur = modules@.take(idx as int);
        let ghost nxt = modules@.take(idx as int + 1);
        let ghost mg = modules@[idx as int];
        proof {
            assert(nxt =~= cur.push(mg));
            assert forall|p: Seq<char>| is_contract_path(*reg, cur, p) implies is_contract_path(
                *reg,
                nxt,
                p,
            ) by {
                let i = choose|i: int|
                    0 <= i < cur.len() && (#[trigger] cur[i]).qualified_path@ == p
                        && module_declares_contract(cur[i]);
                assert(nxt[i] == cur[i]);
                assert((nxt[i]).qualified_path@ == p && module_declares_contract(nxt[i]));
            }
            assert forall|q: Seq<char>| is_model_path(*reg, cur, q) implies is_model_path(
                *reg,
                nxt,
                q,
            ) by {
                let i = choose|i: int|
                    0 <= i < cur.len() && module_declares_model_unit(#[trigger] cur[i], q);
                assert(nxt[i] == cur[i]);
                assert(module_declares_model_unit(nxt[i], q));
            }
            assert forall|e: int| 0 <= e < contracts@.len() implies is_contract_path(
                *reg,
                nxt,
                (#[trigger] contracts@[e]).0@,
            ) by {
                assert(is_contract_path(*reg, cur, contracts@[e].0@));
            }
            assert forall|p: Seq<char>| is_missing_contract_path(*reg, cur, p)
                implies is_missing_contract_path(*reg, nxt, p) by {
                let i = choose|i: int|
                    0 <= i < cur.len() && (#[trigger] cur[i]).qualified_path@ == p
                        && module_declares_contract(cur[i]);
                assert(nxt[i] == cur[i]);
                assert((nxt[i]).qualified_path@ == p && module_declares_contract(nxt[i]));
            }
            assert forall|q: Seq<char>| is_missing_model_path(*reg, cur, q)
                implies is_missing_model_path(*reg, nxt, q) by {
                let i = choose|i: int|
                    0 <= i < cur.len() && module_declares_model_unit(#[trigger] cur[i], q);
                assert(nxt[i] == cur[i]);
                assert(module_declares_model_unit(nxt[i], q));
            }
            assert forall|i: int| 0 <= i < diagnostics@.len() implies match (
            #[trigger] diagnostics@[i]) {
                Diagnostic::ContractNotCompiled { qualified_path } => is_missing_contract_path(
                    *reg,
                    nxt,
                    qualified_path@,
                ),
                Diagnostic::ModelNotCompiled { qualified_path } => is_missing_model_path(
                    *reg,
                    nxt,
                    qualified_path@,
                ),
            } by {
                match diagnostics@[i] {
                    Diagnostic::ContractNotCompiled { qualified_path } => {
                        assert(is_missing_contract_path(*reg, cur, qualified_path@));
                    },
                    Diagnostic::ModelNotCompiled { qualified_path } => {
                        assert(is_missing_model_path(*reg, cur, qualified_path@));
                    },
                }
            }
        }
        let m = &modules[idx];
        let mut j: usize = 0;
        proof {
            assert(m.annotations@.take(0) =~= Seq::<ModuleAnnotation>::empty());
            assert forall|e: int| 0 <= e < models@.len() implies Some(
                (#[trigger] models@[e]).1.0@.members,
            ) == last_members_thru_anns(cur, mg, m.annotations@.take(0), models@[e].0@) by {
                assert(crate::classify::last_model_members_in_anns(
                    mg,
                    m.annotations@.take(0),
                    models@[e].0@,
                ) is None);
            }
            assert forall|o: Seq<char>|
                #![trigger cv_list(computed@, o)]
                cv_list(computed@, o) == cv_group(cur, o) + (if mg.is_submodule && o == cv_owner(mg) {
                    cv_of_anns(mg.qualified_path@, m.annotations@.take(0))
                } else {
                    Seq::<CveView>::empty()
                }) by {
                assert(cv_list(computed@, o) == cv_group(cur, o));
                assert(cv_group(cur, o) + Seq::<CveView>::empty() =~= cv_group(cur, o));
                assert(cv_of_anns(mg.qualified_path@, m.annotations@.take(0)) == Seq::<
                    CveView,
                >::empty());
            }
        }
        while j < m.annotations.len()
            invariant
                0 <= idx < modules@.len(),
                mg == modules@[idx as int],
                *m == mg,
                cur == modules@.take(idx as int),
                nxt == cur.push(mg),
                j <= m.annotations@.len(),
                distinct_keys(contracts@),
                distinct_keys(models@),
                distinct_keys(computed@),
                forall|e: int|
                    0 <= e < contracts@.len() ==> contract_entry_ok(
                        *reg,
                        *rw,
                        (#[trigger] contracts@[e]).0@,
                        contracts@[e].1.0,
                        contracts@[e].1.1,
                    ) && contracts@[e].1.0@.computed.len() == 0 && is_contract_path(
                        *reg,
                        nxt,
                        contracts@[e].0@,
                    ),
                forall|p: Seq<char>|
                    #![trigger has_key(contracts@, p)]
                    is_contract_path(*reg, cur, p) ==> has_key(contracts@, p),
                (anns_declare_contract(m.annotations@.take(j as int)) && has_key(
                    reg.entries@,
                    mg.qualified_path@,
                )) ==> has_key(contracts@, mg.qualified_path@),
                forall|e: int|
                    0 <= e < models@.len() ==> model_entry_core(
                        *reg,
                        (#[trigger] models@[e]).0@,
                        models@[e].1.0,
                        models@[e].1.1,
                    ) && Some(models@[e].1.0@.members) == last_members_thru_anns(
                        cur,
                        mg,
                        m.annotations@.take(j as int),
                        models@[e].0@,
                    ),
                forall|q: Seq<char>|
                    #![trigger has_key(models@, q)]
                    is_model_path(*reg, cur, q) ==> has_key(models@, q),
                forall|q: Seq<char>|
                    #![trigger anns_declare_model_unit(m.annotations@.take(j as int), mg, q)]
                    (anns_declare_model_unit(m.annotations@.take(j as int), mg, q) && has_key(
                        reg.entries@,
                        q,
                    )) ==> has_key(models@, q),
                forall|o: Seq<char>|
                    #![trigger cv_list(computed@, o)]
                    cv_list(computed@, o) == cv_group(cur, o) + (if mg.is_submodule && o
                        == cv_owner(mg) {
                        cv_of_anns(mg.qualified_path@, m.annotations@.take(j as int))
                    } else {
                        Seq::<CveView>::empty()
                    }),
                forall|e: int| 0 <= e < computed@.len() ==> (#[trigger] computed@[e]).1@.len() >= 1,
                forall|i: int|
                    0 <= i < diagnostics@.len() ==> match #[trigger] diagnostics@[i] {
                        Diagnostic::ContractNotCompiled { qualified_path } => (
                        is_missing_contract_path(*reg, nxt, qualified_path@)),
                        Diagnostic::ModelNotCompiled { qualified_path } => (is_missing_model_path(
                            *reg,
                            nxt,
                            qualified_path@,
                        )),
                    },
                forall|p: Seq<char>|
                    #![trigger is_missing_contract_path(*reg, cur, p)]
                    is_missing_contract_path(*reg, cur, p) ==> diag_contract_missing(
                        diagnostics@,
                        p,
                    ),
                forall|q: Seq<char>|
                    #![trigger is_missing_model_path(*reg, cur, q)]
                    is_missing_model_path(*reg, cur, q) ==> diag_model_missing(diagnostics@, q),
                (anns_declare_contract(m.annotations@.take(j as int)) && !has_key(
                    reg.entries@,
                    mg.qualified_path@,
                )) ==> diag_contract_missing(diagnostics@, mg.qualified_path@),
                forall|q: Seq<char>|
                    #![trigger anns_declare_model_unit(m.annotations@.take(j as int), mg, q)]
                    (anns_declare_model_unit(m.annotations@.take(j as int), mg, q) && !has_key(
                        reg.entries@,
                        q,
                    )) ==> diag_model_missing(diagnostics@, q),
            decreases m.annotations@.len() - j,
        {
            let ghost annsg = m.annotations@;
            let ghost ann = annsg[j as int];
            let ghost takej = annsg.take(j as int);
            proof {
                assert(annsg.take(j as int + 1) =~= takej.push(ann));
            }
            match &m.annotations[j] {
                ModuleAnnotation::ContractTag { declared_names } => {
                    let any_user = any_user_contract_name(declared_names);
                    proof {
                        assert(any_user == ann_declares_contract(ann));
                    }
                    if any_user {
                        let found = reg.lookup(m.qualified_path.as_str());
                        match found {
                            Some(art) => {
                                let man = ContractManifest {
                                    name: m.qualified_path.clone(),
                                    class_hash: art.class_hash.clone(),
                                    abi: None,
                                    reads: reads_for(rw, m.qualified_path.as_str()),
                                    writes: writes_for(rw, m.qualified_path.as_str()),
                                    computed: Vec::new(),
                                    address: None,
                                };
                                let abi_doc = clone_opt_string(&art.abi);
                                let ghost pre = contracts@;
                                let w = upsert(
                                    &mut contracts,
                                    m.qualified_path.clone(),
                                    (man, abi_doc),
                                );
                                proof {
                                    crate::assoc::lemma_assoc_get_some(
                                        reg.entries@,
                                        mg.qualified_path@,
                                    );
                                    assert(module_declares_contract(mg)) by {
                                        assert(mg.annotations@[j as int] == ann);
                                        assert(ann_declares_contract(mg.annotations@[j as int]));
                                    }
                                    assert(nxt[idx as int] == mg);
                                    assert(is_contract_path(*reg, nxt, mg.qualified_path@));
                                    assert forall|e: int| 0 <= e < contracts@.len() implies
                                        contract_entry_ok(
                                            *reg,
                                            *rw,
                                            (#[trigger] contracts@[e]).0@,
                                            contracts@[e].1.0,
                                            contracts@[e].1.1,
                                        ) && contracts@[e].1.0@.computed.len() == 0
                                            && is_contract_path(*reg, nxt, contracts@[e].0@) by {
                                        if e != w as int {
                                            assert(contracts@[e] == pre[e]);
                                        } else {
                                            assert(contracts@[e].0@ == mg.qualified_path@);
                                        }
                                    }
                                }
                            },
                            None => {
                                let ghost dpre = diagnostics@;
                                push_diag(
                                    &mut diagnostics,
                                    Diagnostic::ContractNotCompiled {
                                        qualified_path: m.qualified_path.clone(),
                                    },
                                );
                                proof {
                                    crate::assoc::lemma_assoc_get_some(
                                        reg.entries@,
                                        mg.qualified_path@,
                                    );
                                    assert(module_declares_contract(mg)) by {
                                        assert(mg.annotations@[j as int] == ann);
                                        assert(ann_declares_contract(mg.annotations@[j as int]));
                                    }
                                    assert(nxt[idx as int] == mg);
                                    assert(is_missing_contract_path(*reg, nxt, mg.qualified_path@));
                                    assert forall|i: int| 0 <= i < diagnostics@.len() implies match (
                                    #[trigger] diagnostics@[i]) {
                                        Diagnostic::ContractNotCompiled { qualified_path } => (
                                        is_missing_contract_path(*reg, nxt, qualified_path@)),
                                        Diagnostic::ModelNotCompiled { qualified_path } => (
                                        is_missing_model_path(*reg, nxt, qualified_path@)),
                                    } by {
                                        if i < dpre.len() {
                                            assert(diagnostics@[i] == dpre[i]);
                                        }
                                    }
                                }
                            },
                        }
                    }
                    proof {
                        lemma_anns_declare_contract_push(takej, ann);
                        lemma_anns_declare_model_push(takej, ann, mg);
                        assert forall|e: int| 0 <= e < models@.len() implies Some(
                            (#[trigger] models@[e]).1.0@.members,
                        ) == last_members_thru_anns(
                            cur,
                            mg,
                            annsg.take(j as int + 1),
                            models@[e].0@,
                        ) by {
                            crate::classify::lemma_last_anns_push(mg, takej, ann, models@[e].0@);
                        }
                        assert forall|o: Seq<char>|
                            #![trigger cv_list(computed@, o)]
                            cv_list(computed@, o) == cv_group(cur, o) + (if mg.is_submodule && o
                                == cv_owner(mg) {
                                cv_of_anns(mg.qualified_path@, annsg.take(j as int + 1))
                            } else {
                                Seq::<CveView>::empty()
                            }) by {
                            lemma_cv_of_anns_push(mg.qualified_path@, takej, ann);
                            assert(cv_of_anns(mg.qualified_path@, takej) + Seq::<CveView>::empty()
                                =~= cv_of_anns(mg.qualified_path@, takej));
                        }
                    }
                },
                ModuleAnnotation::ModelTag { models: decls } => {
                    let mut d: usize = 0;
                    proof {
                        assert(decls@.take(0) =~= Seq::<crate::classify::ModelDecl>::empty());
                        assert forall|e: int| 0 <= e < models@.len() implies Some(
                            (#[trigger] models@[e]).1.0@.members,
                        ) == last_members_thru_decls(
                            cur,
                            mg,
                            takej,
                            decls@.take(0),
                            models@[e].0@,
                        ) by {
                            assert(crate::classify::last_model_members_in_decls(
                                mg,
                                decls@.take(0),
                                models@[e].0@,
                            ) is None);
                        }
                    }
                    while d < decls.len()
                        invariant
                            0 <= idx < modules@.len(),
                            mg == modules@[idx as int],
                            *m == mg,
                            cur == modules@.take(idx as int),
                            nxt == cur.push(mg),
                            0 <= j < m.annotations@.len(),
                            m.annotations@[j as int] matches ModuleAnnotation::ModelTag {
                                models: dd,
                            } && dd == *decls,
                            d <= decls@.len(),
                            annsg == m.annotations@,
                            ann == annsg[j as int],
                            takej == annsg.take(j as int),
                            distinct_keys(models@),
                            forall|e: int|
                                0 <= e < models@.len() ==> model_entry_core(
                                    *reg,
                                    (#[trigger] models@[e]).0@,
                                    models@[e].1.0,
                                    models@[e].1.1,
                                ) && Some(models@[e].1.0@.members) == last_members_thru_decls(
                                    cur,
                                    mg,
                                    takej,
                                    decls@.take(d as int),
                                    models@[e].0@,
                                ),
                            forall|q: Seq<char>|
                                #![trigger has_key(models@, q)]
                                is_model_path(*reg, cur, q) ==> has_key(models@, q),
                            forall|q: Seq<char>|
                                #![trigger anns_declare_model_unit(
                                    m.annotations@.take(j as int),
                                    mg,
                                    q,
                                )]
                                (anns_declare_model_unit(m.annotations@.take(j as int), mg, q)
                                    && has_key(reg.entries@, q)) ==> has_key(models@, q),
                            forall|t: int|
                                0 <= t < d ==> ((crate::classify::has_string(
                                    mg.struct_names@,
                                    (#[trigger] decls@[t]).name@,
                                ) && has_key(
                                    reg.entries@,
                                    model_unit_path(mg.qualified_path@, decls@[t].name@),
                                )) ==> has_key(
                                    models@,
                                    model_unit_path(mg.qualified_path@, decls@[t].name@),
                                )),
                            forall|i: int|
                                0 <= i < diagnostics@.len() ==> match #[trigger] diagnostics@[i] {
                                    Diagnostic::ContractNotCompiled { qualified_path } => (
                                    is_missing_contract_path(*reg, nxt, qualified_path@)),
                                    Diagnostic::ModelNotCompiled { qualified_path } => (
                                    is_missing_model_path(*reg, nxt, qualified_path@)),
                                },
                            forall|p: Seq<char>|
                                #![trigger is_missing_contract_path(*reg, cur, p)]
                                is_missing_contract_path(*reg, cur, p) ==> diag_contract_missing(
                                    diagnostics@,
                                    p,
                                ),
                            forall|q: Seq<char>|
                                #![trigger is_missing_model_path(*reg, cur, q)]
                                is_missing_model_path(*reg, cur, q) ==> diag_model_missing(
                                    diagnostics@,
                                    q,
                                ),
                            (anns_declare_contract(takej) && !has_key(
                                reg.entries@,
                                mg.qualified_path@,
                            )) ==> diag_contract_missing(diagnostics@, mg.qualified_path@),
                            forall|q: Seq<char>|
                                #![trigger anns_declare_model_unit(takej, mg, q)]
                                (anns_declare_model_unit(takej, mg, q) && !has_key(
                                    reg.entries@,
                                    q,
                                )) ==> diag_model_missing(diagnostics@, q),
                            forall|t: int|
                                0 <= t < d ==> ((crate::classify::has_string(
                                    mg.struct_names@,
                                    (#[trigger] decls@[t]).name@,
                                ) && !has_key(
                                    reg.entries@,
                                    model_unit_path(mg.qualified_path@, decls@[t].name@),
                                )) ==> diag_model_missing(
                                    diagnostics@,
                                    model_unit_path(mg.qualified_path@, decls@[t].name@),
                                )),
                        decreases decls@.len() - d,
                    {
                        let decl = &decls[d];
                        proof {
                            assert(decls@.take(d as int + 1) =~= decls@.take(d as int).push(
                                decls@[d as int],
                            ));
                            assert(decls@[d as int] == *decl);
                        }
                        if crate::classify::contains_string(&m.struct_names, decl.name.as_str()) {
                            let full = model_full_path(
                                m.qualified_path.as_str(),
                                decl.name.as_str(),
                            );
                            let found = reg.lookup(full.as_str());
                            match found {
                                Some(art) => {
                                    let man = ModelManifest {
                                        name: full.clone(),
                                        class_hash: art.class_hash.clone(),
                                        abi: None,
                                        members: clone_members(&decl.members),
                                    };
                                    let abi_doc = clone_opt_string(&art.abi);
                                    let ghost pre = models@;
                                    let w = upsert(&mut models, full, (man, abi_doc));
                                    proof {
                                        crate::assoc::lemma_assoc_get_some(
                                            reg.entries@,
                                            models@[w as int].0@,
                                        );
                                        assert(models@[w as int].0@ == model_unit_path(
                                            mg.qualified_path@,
                                            decls@[d as int].name@,
                                        ));
                                        assert forall|e: int| 0 <= e < models@.len() implies
                                            model_entry_core(
                                                *reg,
                                                (#[trigger] models@[e]).0@,
                                                models@[e].1.0,
                                                models@[e].1.1,
                                            ) && Some(models@[e].1.0@.members)
                                            == last_members_thru_decls(
                                                cur,
                                                mg,
                                                takej,
                                                decls@.take(d as int + 1),
                                                models@[e].0@,
                                            ) by {
                                            crate::classify::lemma_last_decls_push(
                                                mg,
                                                decls@.take(d as int),
                                                decls@[d as int],
                                                models@[e].0@,
                                            );
                                            if e != w as int {
                                                assert(models@[e] == pre[e]);
                                                assert(models@[e].0@ != models@[w as int].0@);
                                            } else {
                                                assert(models@[e].1.0@.members == decls@[
                                                    d as int
                                                ].members.deep_view());
                                            }
                                        }
                                    }
                                },
                                None => {
                                    let ghost fullv = full@;
                                    let ghost dpre = diagnostics@;
                                    push_diag(
                                        &mut diagnostics,
                                        Diagnostic::ModelNotCompiled { qualified_path: full },
                                    );
                                    proof {
                                        crate::assoc::lemma_assoc_get_some(
                                            reg.entries@,
                                            model_unit_path(mg.qualified_path@, decl.name@),
                                        );
                                        assert(ann_declares_model_unit(ann, mg, fullv)) by {
                                            assert(decls@[d as int] == *decl);
                                        }
                                        assert(module_declares_model_unit(mg, fullv)) by {
                                            assert(mg.annotations@[j as int] == ann);
                                        }
                                        assert(nxt[idx as int] == mg);
                                        assert(is_missing_model_path(*reg, nxt, fullv));
                                        assert forall|i: int|
                                            0 <= i < diagnostics@.len() implies match (
                                        #[trigger] diagnostics@[i]) {
                                            Diagnostic::ContractNotCompiled { qualified_path } => (
                                            is_missing_contract_path(*reg, nxt, qualified_path@)),
                                            Diagnostic::ModelNotCompiled { qualified_path } => (
                                            is_missing_model_path(*reg, nxt, qualified_path@)),
                                        } by {
                                            if i < dpre.len() {
                                                assert(diagnostics@[i] == dpre[i]);
                                            }
                                        }
                                        assert forall|e: int| 0 <= e < models@.len() implies
                                            model_entry_core(
                                                *reg,
                                                (#[trigger] models@[e]).0@,
                                                models@[e].1.0,
                                                models@[e].1.1,
                                            ) && Some(models@[e].1.0@.members)
                                            == last_members_thru_decls(
                                                cur,
                                                mg,
                                                takej,
                                                decls@.take(d as int + 1),
                                                models@[e].0@,
                                            ) by {
                                            crate::classify::lemma_last_decls_push(
                                                mg,
                                                decls@.take(d as int),
                                                decls@[d as int],
                                                models@[e].0@,
                                            );
                                            if models@[e].0@ == fullv {
                                                assert(false);
                                            }
                                        }
                                    }
                                },
                            }
                        } else {
                            proof {
                                assert forall|e: int| 0 <= e < models@.len() implies Some(
                                    (#[trigger] models@[e]).1.0@.members,
                                ) == last_members_thru_decls(
                                    cur,
                                    mg,
                                    takej,
                                    decls@.take(d as int + 1),
                                    models@[e].0@,
                                ) by {
                                    crate::classify::lemma_last_decls_push(
                                        mg,
                                        decls@.take(d as int),
                                        decls@[d as int],
                                        models@[e].0@,
                                    );
                                }
                            }
                        }
                        d += 1;
                    }
                    proof {
                        lemma_anns_declare_contract_push(takej, ann);
                        lemma_anns_declare_model_push(takej, ann, mg);
                        assert(decls@.take(decls@.len() as int) =~= decls@);
                        assert forall|e: int| 0 <= e < models@.len() implies Some(
                            (#[trigger] models@[e]).1.0@.members,
                        ) == last_members_thru_anns(
                            cur,
                            mg,
                            annsg.take(j as int + 1),
                            models@[e].0@,
                        ) by {
                            crate::classify::lemma_last_anns_push(mg, takej, ann, models@[e].0@);
                        }
                        assert forall|q: Seq<char>|
                            #![trigger anns_declare_model_unit(
                                annsg.take(j as int + 1),
                                mg,
                                q,
                            )]
                            (anns_declare_model_unit(annsg.take(j as int + 1), mg, q) && has_key(
                                reg.entries@,
                                q,
                            )) implies has_key(models@, q) by {
                            if anns_declare_model_unit(annsg.take(j as int + 1), mg, q) && has_key(
                                reg.entries@,
                                q,
                            ) {
                                if !anns_declare_model_unit(takej, mg, q) {
                                    assert(ann_declares_model_unit(ann, mg, q));
                                    match ann {
                                        ModuleAnnotation::ModelTag { models: dd } => {
                                            let t = choose|t: int|
                                                0 <= t < dd@.len()
                                                    && crate::classify::has_string(
                                                    mg.struct_names@,
                                                    (#[trigger] dd@[t]).name@,
                                                ) && q == model_unit_path(
                                                    mg.qualified_path@,
                                                    dd@[t].name@,
                                                );
                                            assert(has_key(models@, q));
                                        },
                                        _ => {
                                            assert(false);
                                        },
                                    }
                                }
                            }
                        }
                        assert forall|q: Seq<char>|
                            #![trigger anns_declare_model_unit(
                                annsg.take(j as int + 1),
                                mg,
                                q,
                            )]
                            (anns_declare_model_unit(annsg.take(j as int + 1), mg, q) && !has_key(
                                reg.entries@,
                                q,
                            )) implies diag_model_missing(diagnostics@, q) by {
                            if anns_declare_model_unit(annsg.take(j as int + 1), mg, q) && !has_key(
                                reg.entries@,
                                q,
                            ) {
                                if !anns_declare_model_unit(takej, mg, q) {
                                    assert(ann_declares_model_unit(ann, mg, q));
                                    match ann {
                                        ModuleAnnotation::ModelTag { models: dd } => {
                                            let t = choose|t: int|
                                                0 <= t < dd@.len()
                                                    && crate::classify::has_string(
                                                    mg.struct_names@,
                                                    (#[trigger] dd@[t]).name@,
                                                ) && q == model_unit_path(
                                                    mg.qualified_path@,
                                                    dd@[t].name@,
                                                );
                                            assert(diag_model_missing(diagnostics@, q));
                                        },
                                        _ => {
                                            assert(false);
                                        },
                                    }
                                }
                            }
                        }
                        assert forall|o: Seq<char>|
                            #![trigger cv_list(computed@, o)]
                            cv_list(computed@, o) == cv_group(cur, o) + (if mg.is_submodule && o
                                == cv_owner(mg) {
                                cv_of_anns(mg.qualified_path@, annsg.take(j as int + 1))
                            } else {
                                Seq::<CveView>::empty()
                            }) by {
                            lemma_cv_of_anns_push(mg.qualified_path@, takej, ann);
                            assert(cv_of_anns(mg.qualified_path@, takej) + Seq::<CveView>::empty()
                                =~= cv_of_anns(mg.qualified_path@, takej));
                        }
                    }
                },
                ModuleAnnotation::ComputedValueTag { entrypoint, model } => {
                    if m.is_submodule {
                        let owner = parent_path(m.qualified_path.as_str());
                        let cve = ComputedValueEntrypoint {
                            contract: m.qualified_path.clone(),
                            entrypoint: entrypoint.clone(),
                            model: model.clone(),
                        };
                        let ghost cvepre = computed@;
                        record_cv(&mut computed, owner, cve);
                        proof {
                            lemma_cv_of_anns_push(mg.qualified_path@, takej, ann);
                            assert forall|o: Seq<char>|
                                #![trigger cv_list(computed@, o)]
                                cv_list(computed@, o) == cv_group(cur, o) + (if mg.is_submodule && o
                                    == cv_owner(mg) {
                                    cv_of_anns(mg.qualified_path@, annsg.take(j as int + 1))
                                } else {
                                    Seq::<CveView>::empty()
                                }) by {
                                if o == cv_owner(mg) {
                                    assert(cv_list(computed@, o) == cv_list(cvepre, o).push(
                                        CveView {
                                            contract: mg.qualified_path@,
                                            entrypoint: ann->ComputedValueTag_entrypoint@,
                                            model: ann->ComputedValueTag_model@,
                                        },
                                    ));
                                    assert((cv_group(cur, o) + cv_of_anns(
                                        mg.qualified_path@,
                                        takej,
                                    )).push(
                                        CveView {
                                            contract: mg.qualified_path@,
                                            entrypoint: ann->ComputedValueTag_entrypoint@,
                                            model: ann->ComputedValueTag_model@,
                                        },
                                    ) =~= cv_group(cur, o) + cv_of_anns(
                                        mg.qualified_path@,
                                        annsg.take(j as int + 1),
                                    ));
                                }
                            }
                        }
                    } else {
                        proof {
                            assert forall|o: Seq<char>|
                                #![trigger cv_list(computed@, o)]
                                cv_list(computed@, o) == cv_group(cur, o) + (if mg.is_submodule && o
                                    == cv_owner(mg) {
                                    cv_of_anns(mg.qualified_path@, annsg.take(j as int + 1))
                                } else {
                                    Seq::<CveView>::empty()
                                }) by {}
                        }
                    }
                    proof {
                        lemma_anns_declare_contract_push(takej, ann);
                        lemma_anns_declare_model_push(takej, ann, mg);
                        assert forall|e: int| 0 <= e < models@.len() implies Some(
                            (#[trigger] models@[e]).1.0@.members,
                        ) == last_members_thru_anns(
                            cur,
                            mg,
                            annsg.take(j as int + 1),
                            models@[e].0@,
                        ) by {
                            crate::classify::lemma_last_anns_push(mg, takej, ann, models@[e].0@);
                        }
                    }
                },
            }
            j += 1;
        }
        proof {
            let annsfull = m.annotations@;
            assert(annsfull.take(annsfull.len() as int) =~= annsfull);
            assert forall|e: int| 0 <= e < models@.len() implies model_entry_ok(
                *reg,
                nxt,
                (#[trigger] models@[e]).0@,
                models@[e].1.0,
                models@[e].1.1,
            ) by {
                crate::classify::lemma_last_modules_push(cur, mg, models@[e].0@);
            }
            assert forall|p: Seq<char>|
                #![trigger has_key(contracts@, p)]
                is_contract_path(*reg, nxt, p) implies has_key(contracts@, p) by {
                let i = choose|i: int|
                    0 <= i < nxt.len() && (#[trigger] nxt[i]).qualified_path@ == p
                        && module_declares_contract(nxt[i]);
                if i < idx {
                    assert(cur[i] == nxt[i]);
                    assert(is_contract_path(*reg, cur, p));
                } else {
                    assert(nxt[i] == mg);
                }
            }
            assert forall|q: Seq<char>|
                #![trigger has_key(models@, q)]
                is_model_path(*reg, nxt, q) implies has_key(models@, q) by {
                let i = choose|i: int|
                    0 <= i < nxt.len() && module_declares_model_unit(#[trigger] nxt[i], q);
                if i < idx {
                    assert(cur[i] == nxt[i]);
                    assert(is_model_path(*reg, cur, q));
                } else {
                    assert(nxt[i] == mg);
                }
            }
            assert forall|o: Seq<char>|
                #![trigger cv_list(computed@, o)]
                cv_list(computed@, o) == cv_group(nxt, o) by {
                lemma_cv_group_push(cur, mg, o);
                if !(mg.is_submodule && o == cv_owner(mg)) {
                    assert(cv_group(cur, o) + Seq::<CveView>::empty() =~= cv_group(cur, o));
                    if o == cv_owner(mg) {
                        assert(cv_of_module(mg) == Seq::<CveView>::empty());
                    }
                }
            }
            assert forall|p: Seq<char>|
                #![trigger is_missing_contract_path(*reg, nxt, p)]
                is_missing_contract_path(*reg, nxt, p) implies diag_contract_missing(
                diagnostics@,
                p,
            ) by {
                let i = choose|i: int|
                    0 <= i < nxt.len() && (#[trigger] nxt[i]).qualified_path@ == p
                        && module_declares_contract(nxt[i]);
                if i < idx {
                    assert(cur[i] == nxt[i]);
                    assert(is_missing_contract_path(*reg, cur, p));
                } else {
                    assert(nxt[i] == mg);
                }
            }
            assert forall|q: Seq<char>|
                #![trigger is_missing_model_path(*reg, nxt, q)]
                is_missing_model_path(*reg, nxt, q) implies diag_model_missing(
                diagnostics@,
                q,
            ) by {
                let i = choose|i: int|
                    0 <= i < nxt.len() && module_declares_model_unit(#[trigger] nxt[i], q);
                if i < idx {
                    assert(cur[i] == nxt[i]);
                    assert(is_missing_model_path(*reg, cur, q));
                } else {
                    assert(nxt[i] == mg);
                }
            }
        }
        idx += 1;
    }
    proof {
        assert(modules@.take(modules@.len() as int) =~= modules@);
    }
    ScanOutput { contracts, models, computed, diagnostics }
}

/// A module declares a non-system contract at `p` but the registry has
/// no artifact for it: the contract is excluded from the output and the
/// miss is reported.
pub open spec fn is_missing_contract_path(
    reg: ArtifactRegistry,
    modules: Seq<ModuleScan>,
    p: Seq<char>,
) -> bool {
    !has_key(reg.entries@, p) && exists|i: int|
        0 <= i < modules.len() && (#[trigger] modules[i]).qualified_path@ == p
            && module_declares_contract(modules[i])
}

/// A module declares the model unit `q` but the registry has no
/// separately compiled artifact for it: the model is skipped and the
/// miss is reported.
pub open spec fn is_missing_model_path(
    reg: ArtifactRegistry,
    modules: Seq<ModuleScan>,
    q: Seq<char>,
) -> bool {
    !has_key(reg.entries@, q) && exists|i: int|
        0 <= i < modules.len() && module_declares_model_unit(#[trigger] modules[i], q)
}

pub open spec fn diag_contract_missing(diags: Seq<Diagnostic>, p: Seq<char>) -> bool {
    exists|i: int|
        0 <= i < diags.len() && ((#[trigger] diags[i]) matches Diagnostic::ContractNotCompiled {
            qualified_path,
        } && qualified_path@ == p)
}

pub open spec fn diag_model_missing(diags: Seq<Diagnostic>, q: Seq<char>) -> bool {
    exists|i: int|
        0 <= i < diags.len() && ((#[trigger] diags[i]) matches Diagnostic::ModelNotCompiled {
            qualified_path,
        } && qualified_path@ == q)
}

/// The diagnostics report exactly the declared-but-uncompiled contracts
/// and models: every such path is reported, and nothing else is.
pub open spec fn diag_ok(
    reg: ArtifactRegistry,
    modules: Seq<ModuleScan>,
    diags: Seq<Diagnostic>,
) -> bool {
    &&& forall|p: Seq<char>|
        #![trigger is_missing_contract_path(reg, modules, p)]
        is_missing_contract_path(reg, modules, p) ==> diag_contract_missing(diags, p)
    &&& forall|q: Seq<char>|
        #![trigger is_missing_model_path(reg, modules, q)]
        is_missing_model_path(reg, modules, q) ==> diag_model_missing(diags, q)
    &&& forall|i: int|
        0 <= i < diags.len() ==> match #[trigger] diags[i] {
            Diagnostic::ContractNotCompiled { qualified_path } => is_missing_contract_path(
                reg,
                modules,
                qualified_path@,
            ),
            Diagnostic::ModelNotCompiled { qualified_path } => is_missing_model_path(
                reg,
                modules,
                qualified_path@,
            ),
        }
}

/// Appends one diagnostic, keeping every earlier report findable.
fn push_diag(diags: &mut Vec<Diagnostic>, d: Diagnostic)
    ensures
        final(diags)@.len() == old(diags)@.len() + 1,
        forall|i: int| 0 <= i < old(diags)@.len() ==> final(diags)@[i] == old(diags)@[i],
        final(diags)@[old(diags)@.len() as int] == d,
        forall|p: Seq<char>|
            #![trigger diag_contract_missing(final(diags)@, p)]
            diag_contract_missing(final(diags)@, p) <==> (diag_contract_missing(old(diags)@, p) || (
            d matches Diagnostic::ContractNotCompiled { qualified_path } && qualified_path@ == p)),
        forall|q: Seq<char>|
            #![trigger diag_model_missing(final(diags)@, q)]
            diag_model_missing(final(diags)@, q) <==> (diag_model_missing(old(diags)@, q) || (
            d matches Diagnostic::ModelNotCompiled { qualified_path } && qualified_path@ == q)),
{
    let ghost pre = diags@;
    diags.push(d);
    proof {
        assert(diags@[pre.len() as int] == d);
        assert forall|p: Seq<char>|
            #![trigger diag_contract_missing(diags@, p)]
            diag_contract_missing(diags@, p) <==> (diag_contract_missing(pre, p) || (
        d matches Diagnostic::ContractNotCompiled { qualified_path } && qualified_path@ == p)) by {
            if diag_contract_missing(diags@, p) {
                let w = choose|w: int|
                    0 <= w < diags@.len() && ((#[trigger] diags@[w])
                        matches Diagnostic::ContractNotCompiled { qualified_path }
                        && qualified_path@ == p);
                if w < pre.len() {
                    assert(pre[w] == diags@[w]);
                }
            }
            if diag_contract_missing(pre, p) {
                let w = choose|w: int|
                    0 <= w < pre.len() && ((#[trigger] pre[w])
                        matches Diagnostic::ContractNotCompiled { qualified_path }
                        && qualified_path@ == p);
                assert(diags@[w] == pre[w]);
            }
        }
        assert forall|q: Seq<char>|
            #![trigger diag_model_missing(diags@, q)]
            diag_model_missing(diags@, q) <==> (diag_model_missing(pre, q) || (
        d matches Diagnostic::ModelNotCompiled { qualified_path } && qualified_path@ == q)) by {
            if diag_model_missing(diags@, q) {
                let w = choose|w: int|
                    0 <= w < diags@.len() && ((#[trigger] diags@[w])
                        matches Diagnostic::ModelNotCompiled { qualified_path } && qualified_path@
                        == q);
                if w < pre.len() {
                    assert(pre[w] == diags@[w]);
                }
            }
            if diag_model_missing(pre, q) {
                let w = choose|w: int|
                    0 <= w < pre.len() && ((#[trigger] pre[w])
                        matches Diagnostic::ModelNotCompiled { qualified_path } && qualified_path@
                        == q);
                assert(diags@[w] == pre[w]);
            }
        }
    }
}

/// The three system contracts are present in the compiled artifact set.
pub open spec fn system_complete(reg: ArtifactRegistry) -> bool {
    &&& has_key(reg.entries@, "dojo::world::world"@)
    &&& has_key(reg.entries@, "dojo::executor::executor"@)
    &&& has_key(reg.entries@, "dojo::base::base"@)
}

/// What a system-contract manifest holds: its qualified name, the hash
/// and ABI document from the registry, no ABI reference yet, and no
/// deployment address.
pub open spec fn sys_entry_ok(
    reg: ArtifactRegistry,
    entry: (ClassManifest, Option<String>),
    name: Seq<char>,
) -> bool {
    &&& entry.0@.name == name
    &&& entry.0@.abi is None
    &&& entry.0@.address is None
    &&& match assoc_get(reg.entries@, name) {
        Some(a) => entry.0@.class_hash == a.class_hash@ && entry.1.deep_view()
            == a.abi.deep_view(),
        None => false,
    }
}

/// What a fully aggregated contract manifest holds, computed-value
/// bindings attached.
pub open spec fn final_contract_ok(
    reg: ArtifactRegistry,
    rw: RwRecord,
    modules: Seq<ModuleScan>,
    k: Seq<char>,
    man: ContractManifest,
    abi_doc: Option<String>,
) -> bool {
    &&& man@.name == k
    &&& man@.abi is None
    &&& man@.address is None
    &&& strictly_sorted(man@.reads)
    &&& same_members(man@.reads, recorded_reads(rw, k))
    &&& man@.writes == recorded_writes(rw, k)
    &&& man@.computed == cv_group(modules, k)
    &&& match assoc_get(reg.entries@, k) {
        Some(a) => man@.class_hash == a.class_hash@ && abi_doc.deep_view() == a.abi.deep_view(),
        None => false,
    }
}

/// The aggregated manifests of one build: the three system contracts in
/// the fixed world, executor, base order, then the user contracts and
/// the models, each keyed by qualified path and paired with its ABI
/// document, plus the non-fatal diagnostics gathered along the way.
pub struct BuildOutput {
    pub system: Vec<(ClassManifest, Option<String>)>,
    pub contracts: Vec<(String, (ContractManifest, Option<String>))>,
    pub models: Vec<(String, (ModelManifest, Option<String>))>,
    pub diagnostics: Vec<Diagnostic>,
}

/// The whole contract of a successful aggregation.
pub open spec fn aggregate_ok(
    reg: ArtifactRegistry,
    rw: RwRecord,
    modules: Seq<ModuleScan>,
    out: BuildOutput,
) -> bool {
    &&& system_complete(reg)
    &&& out.system@.len() == 3
    &&& sys_entry_ok(reg, out.system@[0], "dojo::world::world"@)
    &&& sys_entry_ok(reg, out.system@[1], "dojo::executor::executor"@)
    &&& sys_entry_ok(reg, out.system@[2], "dojo::base::base"@)
    &&& distinct_keys(out.contracts@)
    &&& distinct_keys(out.models@)
    &&& forall|p: Seq<char>|
        #![trigger has_key(out.contracts@, p)]
        has_key(out.contracts@, p) <==> (is_contract_path(reg, modules, p) && !is_model_path(
            reg,
            modules,
            p,
        ))
    &&& forall|q: Seq<char>|
        #![trigger has_key(out.models@, q)]
        has_key(out.models@, q) <==> is_model_path(reg, modules, q)
    &&& forall|p: Seq<char>|
        #![trigger assoc_get(out.contracts@, p)]
        assoc_get(out.contracts@, p) matches Some(v) ==> final_contract_ok(
            reg,
            rw,
            modules,
            p,
            v.0,
            v.1,
        )
    &&& forall|q: Seq<char>|
        #![trigger assoc_get(out.models@, q)]
        assoc_get(out.models@, q) matches Some(v) ==> model_entry_ok(reg, modules, q, v.0, v.1)
    &&& forall|o: Seq<char>|
        #![trigger cv_group(modules, o)]
        cv_group(modules, o).len() > 0 ==> is_contract_path(reg, modules, o)
    &&& diag_ok(reg, modules, out.diagnostics@)
}

fn system_manifest(reg: &ArtifactRegistry, name: String) -> (r: Result<
    (ClassManifest, Option<String>),
    BuildError,
>)
    ensures
        match r {
            Ok(entry) => sys_entry_ok(*reg, entry, name@) && has_key(reg.entries@, name@),
            Err(e) => match e {
                BuildError::MissingSystemContract { name: n } => n@ == name@ && !has_key(
                    reg.entries@,
                    name@,
                ),
                _ => false,
            },
        },
{
    let found = reg.lookup(name.as_str());
    match found {
        Some(a) => {
            let man = ClassManifest {
                name: name.clone(),
                class_hash: a.class_hash.clone(),
                abi: None,
                address: None,
            };
            let doc = clone_opt_string(&a.abi);
            proof {
                crate::assoc::lemma_assoc_get_some(reg.entries@, name@);
            }
            Ok((man, doc))
        },
        None => {
            proof {
                crate::assoc::lemma_assoc_get_some(reg.entries@, name@);
            }
            Err(BuildError::MissingSystemContract { name })
        },
    }
}

/// The classification and aggregation pass of one build: checks that the
/// three system contracts were compiled, classifies every module, builds
/// the keyed manifest collections, attaches computed-value bindings to
/// their owning contracts, and discards every contract key that a model
/// claims. No manifest collection is produced on a fatal error.
pub fn aggregate(reg: &ArtifactRegistry, modules: &Vec<ModuleScan>, rw: &RwRecord) -> (r: Result<
    BuildOutput,
    BuildError,
>)
    ensures
        match r {
            Ok(out) => aggregate_ok(*reg, *rw, modules@, out),
            Err(e) => match e {
                BuildError::MissingSystemContract { name } => !has_key(reg.entries@, name@) && (
                name@ == "dojo::world::world"@ || name@ == "dojo::executor::executor"@ || name@
                    == "dojo::base::base"@),
                BuildError::ComputedValueOwnerMissing { contract } => cv_group(
                    modules@,
                    contract@,
                ).len() >= 1 && !is_contract_path(*reg, modules@, contract@),
                _ => false,
            },
        },
        !system_complete(*reg) ==> r is Err,
{
    let wentry = match system_manifest(reg, crate::classify::world_contract_path()) {
        Ok(x) => x,
        Err(e) => {
            return Err(e);
        },
    };
    let eentry = match system_manifest(reg, crate::classify::executor_contract_path()) {
        Ok(x) => x,
        Err(e) => {
            return Err(e);
        },
    };
    let bentry = match system_manifest(reg, crate::classify::base_contract_path()) {
        Ok(x) => x,
        Err(e) => {
            return Err(e);
        },
    };
    let so = scan_modules(reg, modules, rw);
    let mut contracts = so.contracts;
    let models = so.models;
    let computed = so.computed;
    let diagnostics = so.diagnostics;
    let ghost scanc = contracts@;
    let attach_result = attach_computed(&mut contracts, &computed);
    match attach_result {
        Ok(_) => {},
        Err(e) => {
            proof {
                let c = e->ComputedValueOwnerMissing_contract;
                crate::assoc::lemma_assoc_get_some(computed@, c@);
                crate::assoc::lemma_assoc_get_index(computed@, c@);
                let i = choose|i: int|
                    0 <= i < computed@.len() && (#[trigger] computed@[i]).0@ == c@ && computed@[
                        i
                    ].1 == assoc_get(computed@, c@)->0;
                assert(cv_list(computed@, c@) == cve_views(computed@[i].1@));
                assert(cve_views(computed@[i].1@).len() == computed@[i].1@.len());
                assert(cv_group(modules@, c@).len() >= 1);
                if is_contract_path(*reg, modules@, c@) {
                    assert(has_key(scanc, c@));
                    assert(false);
                }
            }
            return Err(e);
        },
    }
    let ghost attc = contracts@;
    drop_model_keys(&mut contracts, &models);
    let mut system: Vec<(ClassManifest, Option<String>)> = Vec::new();
    system.push(wentry);
    system.push(eentry);
    system.push(bentry);
    let out = BuildOutput { system, contracts, models, diagnostics };
    proof {
        let regv = *reg;
        let rwv = *rw;
        let mods = modules@;
        assert forall|p: Seq<char>| has_key(attc, p) <==> has_key(scanc, p) by {
            if has_key(attc, p) {
                let w = choose|w: int| 0 <= w < attc.len() && attc[w].0@ == p;
                assert(scanc[w].0 == attc[w].0);
                assert(scanc[w].0@ == p);
            }
            if has_key(scanc, p) {
                let w = choose|w: int| 0 <= w < scanc.len() && scanc[w].0@ == p;
                assert(attc[w].0 == scanc[w].0);
                assert(attc[w].0@ == p);
            }
        }
        assert forall|p: Seq<char>| has_key(scanc, p) implies is_contract_path(regv, mods, p) by {
            let w = choose|w: int| 0 <= w < scanc.len() && scanc[w].0@ == p;
            assert(is_contract_path(regv, mods, scanc[w].0@));
        }
        assert forall|q: Seq<char>| has_key(out.models@, q) implies is_model_path(
            regv,
            mods,
            q,
        ) by {
            let w = choose|w: int| 0 <= w < out.models@.len() && out.models@[w].0@ == q;
            assert(model_entry_ok(regv, mods, out.models@[w].0@, out.models@[w].1.0, out.models@[
                w
            ].1.1));
            crate::classify::lemma_last_members_implies_unit(mods, q);
            crate::assoc::lemma_assoc_get_some(regv.entries@, q);
        }
        assert forall|p: Seq<char>|
            #![trigger has_key(out.contracts@, p)]
            has_key(out.contracts@, p) <==> (is_contract_path(regv, mods, p) && !is_model_path(
                regv,
                mods,
                p,
            )) by {
            if has_key(out.contracts@, p) {
                assert(has_key(attc, p) && !has_key(out.models@, p));
                assert(is_contract_path(regv, mods, p));
                if is_model_path(regv, mods, p) {
                    assert(has_key(out.models@, p));
                    assert(false);
                }
            }
            if is_contract_path(regv, mods, p) && !is_model_path(regv, mods, p) {
                assert(has_key(scanc, p));
                if has_key(out.models@, p) {
                    assert(false);
                }
                assert(has_key(out.contracts@, p));
            }
        }
        assert forall|p: Seq<char>|
            #![trigger assoc_get(out.contracts@, p)]
            assoc_get(out.contracts@, p) is Some implies final_contract_ok(
                regv,
                rwv,
                mods,
                p,
                (assoc_get(out.contracts@, p)->0).0,
                (assoc_get(out.contracts@, p)->0).1,
            ) by {
            if assoc_get(out.contracts@, p) is Some {
                let v = assoc_get(out.contracts@, p)->0;
                crate::assoc::lemma_assoc_get_some(out.contracts@, p);
                assert(assoc_get(out.contracts@, p) == assoc_get(attc, p));
                crate::assoc::lemma_assoc_get_some(attc, p);
                crate::assoc::lemma_assoc_get_index(attc, p);
                let w = choose|w: int|
                    0 <= w < attc.len() && (#[trigger] attc[w]).0@ == p && attc[w].1 == assoc_get(
                        attc,
                        p,
                    )->0;
                assert(attc[w].1 == v);
                assert(scanc[w].0 == attc[w].0);
                assert(contract_entry_ok(regv, rwv, p, scanc[w].1.0, scanc[w].1.1));
                assert(scanc[w].1.0@.computed.len() == 0);
                if has_key(computed@, p) {
                    assert(v.0@.computed == cv_list(computed@, p));
                } else {
                    crate::assoc::lemma_assoc_get_some(computed@, p);
                    assert(cv_list(computed@, p) =~= Seq::<CveView>::empty());
                    assert(v.0@.computed == scanc[w].1.0@.computed);
                    assert(v.0@.computed =~= cv_list(computed@, p));
                }
                assert(cv_list(computed@, p) == cv_group(mods, p));
            }
        }
        assert forall|q: Seq<char>|
            #![trigger assoc_get(out.models@, q)]
            assoc_get(out.models@, q) is Some implies model_entry_ok(
                regv,
                mods,
                q,
                (assoc_get(out.models@, q)->0).0,
                (assoc_get(out.models@, q)->0).1,
            ) by {
            if assoc_get(out.models@, q) is Some {
                crate::assoc::lemma_assoc_get_some(out.models@, q);
                crate::assoc::lemma_assoc_get_index(out.models@, q);
                let w = choose|w: int|
                    0 <= w < out.models@.len() && (#[trigger] out.models@[w]).0@ == q
                        && out.models@[w].1 == assoc_get(out.models@, q)->0;
                assert(model_entry_ok(regv, mods, out.models@[w].0@, out.models@[w].1.0,
                out.models@[w].1.1));
            }
        }
        assert forall|o: Seq<char>|
            #![trigger cv_group(mods, o)]
            cv_group(mods, o).len() > 0 implies is_contract_path(regv, mods, o) by {
            assert(cv_list(computed@, o) == cv_group(mods, o));
            if assoc_get(computed@, o) is None {
                assert(cv_list(computed@, o) == Seq::<CveView>::empty());
            }
            crate::assoc::lemma_assoc_get_some(computed@, o);
            let w = choose|w: int| 0 <= w < computed@.len() && (#[trigger] computed@[w]).0@ == o;
            assert(has_key(scanc, o));
        }
    }
    Ok(out)
}

/// Some artifact input carries this qualified path.
pub open spec fn items_has_path(items: Seq<crate::registry::ArtifactInput>, p: Seq<char>) -> bool {
    exists|i: int| 0 <= i < items.len() && (#[trigger] items[i]).qualified_path@ == p
}

/// The compute core of one build invocation: hash and register every
/// compiled artifact, then classify the modules and aggregate the
/// manifest collections. Nothing is produced on a fatal error.
pub fn run_build(
    items: &Vec<crate::registry::ArtifactInput>,
    modules: &Vec<ModuleScan>,
    rw: &RwRecord,
) -> (r: Result<(ArtifactRegistry, BuildOutput), BuildError>)
    requires
        crate::registry::distinct_paths(items@),
    ensures
        match r {
            Ok(pair) => {
                &&& crate::registry::all_hashable(items@)
                &&& pair.0.wf()
                &&& pair.0.entries@.len() == items@.len()
                &&& forall|i: int|
                    0 <= i < items@.len() ==> (#[trigger] pair.0.entries@[i]).0@ == items@[
                        i
                    ].qualified_path@
                &&& forall|i: int|
                    0 <= i < items@.len() ==> Some((#[trigger] pair.0.entries@[i]).1.class_hash@)
                        == crate::registry::sierra_class_hash(items@[i].class_json@)
                &&& forall|i: int|
                    0 <= i < items@.len() ==> (#[trigger] pair.0.entries@[i]).1.abi.deep_view()
                        == items@[i].abi.deep_view()
                &&& aggregate_ok(pair.0, *rw, modules@, pair.1)
            },
            Err(e) => match e {
                BuildError::ArtifactParse { qualified_path } => {
                    &&& !crate::registry::all_hashable(items@)
                    &&& exists|i: int|
                        0 <= i < items@.len() && (#[trigger] items@[i]).qualified_path@
                            == qualified_path@ && crate::registry::sierra_class_hash(
                            items@[i].class_json@,
                        ) is None
                },
                BuildError::MissingSystemContract { name } => !items_has_path(items@, name@) && (
                name@ == "dojo::world::world"@ || name@ == "dojo::executor::executor"@ || name@
                    == "dojo::base::base"@),
                BuildError::ComputedValueOwnerMissing { contract } => cv_group(
                    modules@,
                    contract@,
                ).len() >= 1 && !(items_has_path(items@, contract@) && exists|i: int|
                    0 <= i < modules@.len() && (#[trigger] modules@[i]).qualified_path@ == contract@
                        && module_declares_contract(modules@[i])),
                _ => false,
            },
        },
{
    let reg = match crate::registry::build_registry(items) {
        Ok(reg) => reg,
        Err(e) => {
            return Err(e);
        },
    };
    proof {
        assert forall|p: Seq<char>| has_key(reg.entries@, p) <==> items_has_path(items@, p) by {
            if has_key(reg.entries@, p) {
                let w = choose|w: int| 0 <= w < reg.entries@.len() && reg.entries@[w].0@ == p;
                assert(items@[w].qualified_path@ == p);
            }
            if items_has_path(items@, p) {
                let w = choose|w: int|
                    0 <= w < items@.len() && (#[trigger] items@[w]).qualified_path@ == p;
                assert(reg.entries@[w].0@ == p);
            }
        }
    }
    let result = aggregate(&reg, modules, rw);
    match result {
        Ok(out) => Ok((reg, out)),
        Err(e) => {
            proof {
                if e is ComputedValueOwnerMissing {
                    let c = e->ComputedValueOwnerMissing_contract;
                    assert(!is_contract_path(reg, modules@, c@));
                    assert(has_key(reg.entries@, c@) <==> items_has_path(items@, c@));
                }
            }
            Err(e)
        },
    }
}

} // verus!
