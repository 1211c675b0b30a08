use vstd::prelude::*;

use crate::assoc::views_of;
use crate::classify::contains_string;
use crate::classify::has_string;
use crate::strutil::first_cut;
use crate::strutil::package_part;
use crate::strutil::str_eq;

verus! {

/// A user-supplied selector naming a package, or an exact contract path
/// inside a package, to pull into the build beyond the main project.
pub struct ContractSelector(pub String);

/// The owning package of a selector: the part before the first path
/// separator, or the whole string when it has none.
pub open spec fn sel_package(s: ContractSelector) -> Seq<char> {
    s.0@.take(first_cut(s.0@))
}

impl ContractSelector {
    pub fn new(raw: String) -> (r: ContractSelector)
        ensures
            r.0@ == raw@,
    {
        ContractSelector(raw)
    }

    /// The owning package name.
    pub fn package(&self) -> (r: String)
        ensures
            r@ == sel_package(*self),
    {
        package_part(self.0.as_str())
    }

    /// The full dotted path the selector was written with.
    pub fn full_path(&self) -> (r: String)
        ensures
            r@ == self.0@,
    {
        self.0.clone()
    }
}

/// Build-target configuration: the optional list of external-contract
/// selectors; absence means no external contracts are pulled in.
pub struct Props {
    pub build_external_contracts: Option<Vec<ContractSelector>>,
}

/// The compiler front for the build target; the verified pipeline
/// behind it registers compiled artifacts and aggregates manifests.
pub struct DojoCompiler;

impl DojoCompiler {
    /// The name of the build-target kind this compiler serves.
    pub fn target_kind(&self) -> (r: String)
        ensures
            r@ == "dojo"@,
    {
        "dojo".to_owned()
    }
}

/// The value is the owning package of one of the selectors.
pub open spec fn is_package_of_some(sels: Seq<ContractSelector>, x: Seq<char>) -> bool {
    exists|t: int| 0 <= t < sels.len() && sel_package(#[trigger] sels[t]) == x
}

/// The owning packages of the selectors, in selector order.
pub open spec fn packages_of(sels: Seq<ContractSelector>) -> Seq<Seq<char>> {
    sels.map_values(|s: ContractSelector| sel_package(s))
}

/// The sequence with every repeated value dropped, keeping the first
/// occurrence of each value in its original position.
pub open spec fn dedup_first(s: Seq<Seq<char>>) -> Seq<Seq<char>>
    decreases s.len(),
{
    if s.len() == 0 {
        Seq::<Seq<char>>::empty()
    } else {
        let rest = dedup_first(s.drop_last());
        if rest.contains(s.last()) {
            rest
        } else {
            rest.push(s.last())
        }
    }
}

/// The deduplicated owning packages of the selectors, first occurrence
/// kept in order: the additional scan targets to resolve to crate
/// identifiers. Appending a selector whose package already occurs
/// leaves the result unchanged.
pub fn unique_packages(selectors: &Vec<ContractSelector>) -> (r: Vec<String>)
    ensures
        views_of(r@) == dedup_first(packages_of(selectors@)),
        forall|j1: int, j2: int| 0 <= j1 < j2 < r@.len() ==> r@[j1]@ != r@[j2]@,
        forall|i: int|
            0 <= i < selectors@.len() ==> has_string(r@, sel_package(#[trigger] selectors@[i])),
        forall|j: int| 0 <= j < r@.len() ==> is_package_of_some(selectors@, (#[trigger] r@[j])@),
{
    let mut r: Vec<String> = Vec::new();
    let mut i: usize = 0;
    proof {
        assert(packages_of(selectors@.take(0)) =~= Seq::<Seq<char>>::empty());
        assert(views_of(r@) =~= dedup_first(packages_of(selectors@.take(0))));
    }
    while i < selectors.len()
        invariant
            i <= selectors@.len(),
            views_of(r@) == dedup_first(packages_of(selectors@.take(i as int))),
            forall|j1: int, j2: int| 0 <= j1 < j2 < r@.len() ==> r@[j1]@ != r@[j2]@,
            forall|t: int|
                0 <= t < i ==> has_string(r@, sel_package(#[trigger] selectors@[t])),
            forall|j: int|
                0 <= j < r@.len() ==> is_package_of_some(selectors@, (#[trigger] r@[j])@),
        decreases selectors@.len() - i,
    {
        let pkg = selectors[i].package();
        let ghost pre = r@;
        let ghost pv = packages_of(selectors@.take(i as int));
        let ghost nv = packages_of(selectors@.take(i as int + 1));
        proof {
            assert(nv.drop_last() =~= pv);
            assert(nv.last() == sel_package(selectors@[i as int]));
            assert forall|x: Seq<char>| views_of(pre).contains(x) implies has_string(pre, x) by {
                let w = choose|w: int| 0 <= w < views_of(pre).len() && views_of(pre)[w] == x;
                assert(pre[w]@ == x);
            }
            assert forall|x: Seq<char>| has_string(pre, x) implies views_of(pre).contains(x) by {
                let w = choose|w: int| 0 <= w < pre.len() && pre[w]@ == x;
                assert(views_of(pre)[w] == x);
            }
        }
        if !contains_string(&r, pkg.as_str()) {
            r.push(pkg);
            proof {
                assert(!dedup_first(pv).contains(nv.last()));
                assert(dedup_first(nv) == dedup_first(pv).push(nv.last()));
                assert(views_of(r@) =~= views_of(pre).push(sel_package(selectors@[i as int])));
                assert(r@[pre.len() as int]@ == sel_package(selectors@[i as int]));
                assert forall|j: int| 0 <= j < r@.len() implies is_package_of_some(
                    selectors@,
                    (#[trigger] r@[j])@,
                ) by {
                    if j < pre.len() {
                        assert(r@[j] == pre[j]);
                    } else {
                        assert(sel_package(selectors@[i as int]) == r@[j]@);
                    }
                }
                assert forall|t: int| 0 <= t < i + 1 implies has_string(
                    r@,
                    sel_package(#[trigger] selectors@[t]),
                ) by {
                    if t < i {
                        let w = choose|w: int|
                            0 <= w < pre.len() && pre[w]@ == sel_package(selectors@[t]);
                        assert(r@[w]@ == sel_package(selectors@[t]));
                    }
                }
            }
        } else {
            proof {
                assert(has_string(r@, sel_package(selectors@[i as int])));
                assert(dedup_first(pv).contains(nv.last()));
                assert(dedup_first(nv) == dedup_first(pv));
            }
        }
        i += 1;
    }
    proof {
        assert(selectors@.take(selectors@.len() as int) =~= selectors@);
    }
    r
}

/// The deduplicated owning packages of the three system contracts: the
/// core crates that join the main crates in every scan.
pub fn collect_core_crate_packages() -> (r: Vec<String>)
    ensures
        forall|j1: int, j2: int| 0 <= j1 < j2 < r@.len() ==> r@[j1]@ != r@[j2]@,
        has_string(r@, "dojo::world::world"@.take(first_cut("dojo::world::world"@))),
        has_string(r@, "dojo::executor::executor"@.take(first_cut("dojo::executor::executor"@))),
        has_string(r@, "dojo::base::base"@.take(first_cut("dojo::base::base"@))),
        forall|j: int|
            0 <= j < r@.len() ==> r@[j]@ == "dojo::world::world"@.take(
                first_cut("dojo::world::world"@),
            ) || r@[j]@ == "dojo::executor::executor"@.take(
                first_cut("dojo::executor::executor"@),
            ) || r@[j]@ == "dojo::base::base"@.take(first_cut("dojo::base::base"@)),
{
    let mut sels: Vec<ContractSelector> = Vec::new();
    sels.push(ContractSelector::new(crate::classify::base_contract_path()));
    sels.push(ContractSelector::new(crate::classify::executor_contract_path()));
    sels.push(ContractSelector::new(crate::classify::world_contract_path()));
    let r = unique_packages(&sels);
    proof {
        assert(sel_package(sels@[0]) == "dojo::base::base"@.take(first_cut("dojo::base::base"@)));
        assert(sel_package(sels@[1]) == "dojo::executor::executor"@.take(
            first_cut("dojo::executor::executor"@),
        ));
        assert(sel_package(sels@[2]) == "dojo::world::world"@.take(
            first_cut("dojo::world::world"@),
        ));
        assert forall|j: int| 0 <= j < r@.len() implies r@[j]@ == "dojo::world::world"@.take(
            first_cut("dojo::world::world"@),
        ) || r@[j]@ == "dojo::executor::executor"@.take(first_cut("dojo::executor::executor"@))
            || r@[j]@ == "dojo::base::base"@.take(first_cut("dojo::base::base"@)) by {
            assert(is_package_of_some(sels@, r@[j]@));
            let t = choose|t: int| 0 <= t < sels@.len() && sel_package(#[trigger] sels@[t]) == r@[
                j
            ]@;
            assert(t == 0 || t == 1 || t == 2);
        }
    }
    r
}

/// Some selector's full path equals `p` exactly.
pub open spec fn sel_match(sels: Seq<ContractSelector>, p: Seq<char>) -> bool {
    exists|s: int| 0 <= s < sels.len() && (#[trigger] sels[s]).0@ == p
}

fn matches_any_selector(selectors: &Vec<ContractSelector>, p: &str) -> (r: bool)
    ensures
        r == sel_match(selectors@, p@),
{
    let mut s: usize = 0;
    while s < selectors.len()
        invariant
            s <= selectors@.len(),
            forall|t: int| 0 <= t < s ==> (#[trigger] selectors@[t]).0@ != p@,
        decreases selectors@.len() - s,
    {
        if str_eq(selectors[s].0.as_str(), p) {
            return true;
        }
        s += 1;
    }
    false
}

/// Whether a path is kept by the external-selector filter.
pub open spec fn keeps(sels: Seq<ContractSelector>) -> spec_fn(Seq<char>) -> bool {
    |x: Seq<char>| sel_match(sels, x)
}

/// Keeps exactly the declared contract paths that equal some selector's
/// full path, in declaration order. A package-only selector therefore
/// matches nothing here: that is the documented external-selection
/// semantics, not an oversight.
pub fn filter_external_paths(declared: &Vec<String>, selectors: &Vec<ContractSelector>) -> (r: Vec<
    String,
>)
    ensures
        views_of(r@) == views_of(declared@).filter(keeps(selectors@)),
        forall|d: int|
            0 <= d < declared@.len() ==> (sel_match(selectors@, (#[trigger] declared@[d])@)
                ==> has_string(r@, declared@[d]@)),
{
    let mut r: Vec<String> = Vec::new();
    let mut d: usize = 0;
    proof {
        reveal_with_fuel(Seq::<Seq<char>>::filter, 2);
        assert(views_of(declared@.take(0)) =~= Seq::<Seq<char>>::empty());
        assert(views_of(r@) =~= Seq::<Seq<char>>::empty().filter(keeps(selectors@)));
    }
    while d < declared.len()
        invariant
            d <= declared@.len(),
            views_of(r@) == views_of(declared@.take(d as int)).filter(keeps(selectors@)),
            forall|t: int|
                0 <= t < d ==> (sel_match(selectors@, (#[trigger] declared@[t])@) ==> has_string(
                    r@,
                    declared@[t]@,
                )),
        decreases declared@.len() - d,
    {
        let ghost pre = r@;
        let ghost pv = views_of(declared@.take(d as int));
        let ghost nv = views_of(declared@.take(d + 1));
        proof {
            reveal_with_fuel(Seq::<Seq<char>>::filter, 2);
            assert(nv.drop_last() =~= pv);
            assert(nv.last() == declared@[d as int]@);
        }
        if matches_any_selector(selectors, declared[d].as_str()) {
            r.push(declared[d].clone());
            proof {
                reveal_with_fuel(Seq::<Seq<char>>::filter, 2);
                assert(r@[pre.len() as int]@ == declared@[d as int]@);
                assert(keeps(selectors@)(nv.last()));
                assert(nv.filter(keeps(selectors@)) == pv.filter(keeps(selectors@)).push(
                    nv.last(),
                ));
                assert(views_of(r@) =~= views_of(pre).push(declared@[d as int]@));
                assert forall|t: int|
                    0 <= t < d + 1 && sel_match(
                        selectors@,
                        (#[trigger] declared@[t])@,
                    ) implies has_string(r@, declared@[t]@) by {
                    if t < d {
                        let w = choose|w: int|
                            0 <= w < pre.len() && pre[w]@ == declared@[t]@;
                        assert(r@[w]@ == declared@[t]@);
                    } else {
                        assert(r@[pre.len() as int]@ == declared@[t]@);
                    }
                }
            }
        } else {
            proof {
                reveal_with_fuel(Seq::<Seq<char>>::filter, 2);
                assert(!keeps(selectors@)(nv.last()));
                assert(nv.filter(keeps(selectors@)) == pv.filter(keeps(selectors@)));
            }
        }
        d += 1;
    }
    proof {
        assert(views_of(declared@.take(declared@.len() as int)) =~= views_of(declared@));
    }
    r
}

} // verus!
