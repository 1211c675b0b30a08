use vstd::prelude::*;

use convert_case::Casing;

use crate::manifest::Member;
use crate::strutil::str_eq;

verus! {

/// One data-schema model declaration carried by a module's metadata.
pub struct ModelDecl {
    pub name: String,
    pub members: Vec<Member>,
}

/// Why a compiled module matters, as attached by the semantic analyzer.
/// Several annotations may co-occur on one module; each is processed
/// independently against the same module identity.
pub enum ModuleAnnotation {
    /// The module declares one or more contracts.
    ContractTag { declared_names: Vec<String> },
    /// The module declares one or more data-schema models.
    ModelTag { models: Vec<ModelDecl> },
    /// The module exposes a computed value bound to a model, scoped to
    /// the enclosing contract module.
    ComputedValueTag { entrypoint: String, model: String },
}

/// One module under consideration: its qualified path, whether it is a
/// submodule (only submodules can own computed values), the structural
/// type declarations it holds, and its attached annotations.
pub struct ModuleScan {
    pub qualified_path: String,
    pub is_submodule: bool,
    pub struct_names: Vec<String>,
    pub annotations: Vec<ModuleAnnotation>,
}

/// Names the snake-case rendering that convert_case computes; the
/// result is a function of the input characters alone.
pub uninterp spec fn snake_case_of(s: Seq<char>) -> Seq<char>;

/// Relies on convert_case's `Casing::to_case` with the snake-case
/// target; the conversion depends on the input characters alone.
#[verifier::external_body]
fn to_snake_case(s: &str) -> (r: String)
    ensures
        r@ == snake_case_of(s@),
{
    s.to_case(convert_case::Case::Snake)
}

/// The qualified path under which a model's contract-shaped unit is
/// compiled: the declaring module's path, the path separator, and the
/// model's name folded to the compiled snake-case convention.
pub open spec fn model_unit_path(module: Seq<char>, model_name: Seq<char>) -> Seq<char> {
    module + "::"@ + snake_case_of(model_name)
}

pub fn model_full_path(module: &str, model_name: &str) -> (r: String)
    ensures
        r@ == model_unit_path(module@, model_name@),
{
    let snake = to_snake_case(model_name);
    let mut r = module.to_owned();
    r.append("::");
    r.append(snake.as_str());
    r
}

/// The three system contracts are declared under these short names and
/// are excluded from the user-contract collection.
pub open spec fn is_system_contract_name(n: Seq<char>) -> bool {
    n == "world"@ || n == "executor"@ || n == "base"@
}

pub fn check_system_contract_name(n: &str) -> (r: bool)
    ensures
        r == is_system_contract_name(n@),
{
    str_eq(n, "world") || str_eq(n, "executor") || str_eq(n, "base")
}

/// The qualified path of the world registry contract.
pub fn world_contract_path() -> (r: String)
    ensures
        r@ == "dojo::world::world"@,
{
    "dojo::world::world".to_owned()
}

/// The qualified path of the executor contract.
pub fn executor_contract_path() -> (r: String)
    ensures
        r@ == "dojo::executor::executor"@,
{
    "dojo::executor::executor".to_owned()
}

/// The qualified path of the base contract template.
pub fn base_contract_path() -> (r: String)
    ensures
        r@ == "dojo::base::base"@,
{
    "dojo::base::base".to_owned()
}

/// Whether the vector holds a string with the given view.
pub open spec fn has_string(v: Seq<String>, n: Seq<char>) -> bool {
    exists|i: int| 0 <= i < v.len() && v[i]@ == n
}

pub fn contains_string(v: &Vec<String>, n: &str) -> (r: bool)
    ensures
        r == has_string(v@, n@),
{
    let mut i: usize = 0;
    while i < v.len()
        invariant
            i <= v@.len(),
            forall|j: int| 0 <= j < i ==> v@[j]@ != n@,
        decreases v@.len() - i,
    {
        if str_eq(v[i].as_str(), n) {
            return true;
        }
        i += 1;
    }
    false
}

/// The annotation declares at least one non-system contract name.
pub open spec fn ann_declares_contract(ann: ModuleAnnotation) -> bool {
    ann matches ModuleAnnotation::ContractTag { declared_names } && exists|n: int|
        0 <= n < declared_names@.len() && !is_system_contract_name(
            (#[trigger] declared_names@[n])@,
        )
}

/// A prefix of annotations declares at least one non-system contract.
pub open spec fn anns_declare_contract(anns: Seq<ModuleAnnotation>) -> bool {
    exists|a: int| 0 <= a < anns.len() && ann_declares_contract(#[trigger] anns[a])
}

/// The module declares at least one contract that is not a system
/// contract.
pub open spec fn module_declares_contract(m: ModuleScan) -> bool {
    anns_declare_contract(m.annotations@)
}

/// The annotation names a model that is declared as a structural type
/// in module `m` and whose compiled unit path is `q`.
pub open spec fn ann_declares_model_unit(ann: ModuleAnnotation, m: ModuleScan, q: Seq<char>) -> bool {
    ann matches ModuleAnnotation::ModelTag { models } && exists|d: int|
        0 <= d < models@.len() && has_string(m.struct_names@, (#[trigger] models@[d]).name@) && q
            == model_unit_path(m.qualified_path@, models@[d].name@)
}

/// A prefix of annotations declares the model unit with path `q` in
/// module `m`.
pub open spec fn anns_declare_model_unit(
    anns: Seq<ModuleAnnotation>,
    m: ModuleScan,
    q: Seq<char>,
) -> bool {
    exists|a: int| 0 <= a < anns.len() && ann_declares_model_unit(#[trigger] anns[a], m, q)
}

/// The module declares the model unit with qualified path `q`.
pub open spec fn module_declares_model_unit(m: ModuleScan, q: Seq<char>) -> bool {
    anns_declare_model_unit(m.annotations@, m, q)
}

pub proof fn lemma_anns_declare_contract_push(anns: Seq<ModuleAnnotation>, a: ModuleAnnotation)
    ensures
        anns_declare_contract(anns.push(a)) <==> (anns_declare_contract(anns)
            || ann_declares_contract(a)),
{
    assert(anns.push(a)[anns.len() as int] == a);
    if anns_declare_contract(anns.push(a)) {
        let w = choose|w: int|
            0 <= w < anns.push(a).len() && ann_declares_contract(#[trigger] anns.push(a)[w]);
        if w < anns.len() {
            assert(anns[w] == anns.push(a)[w]);
        }
    }
    if anns_declare_contract(anns) {
        let w = choose|w: int| 0 <= w < anns.len() && ann_declares_contract(#[trigger] anns[w]);
        assert(anns.push(a)[w] == anns[w]);
    }
}

pub proof fn lemma_anns_declare_model_push(anns: Seq<ModuleAnnotation>, a: ModuleAnnotation, m: ModuleScan)
    ensures
        forall|q: Seq<char>|
            #![trigger anns_declare_model_unit(anns.push(a), m, q)]
            anns_declare_model_unit(anns.push(a), m, q) <==> (anns_declare_model_unit(anns, m, q)
                || ann_declares_model_unit(a, m, q)),
{
    assert forall|q: Seq<char>|
        #![trigger anns_declare_model_unit(anns.push(a), m, q)]
        anns_declare_model_unit(anns.push(a), m, q) <==> (anns_declare_model_unit(anns, m, q)
            || ann_declares_model_unit(a, m, q)) by {
        assert(anns.push(a)[anns.len() as int] == a);
        if anns_declare_model_unit(anns.push(a), m, q) {
            let w = choose|w: int|
                0 <= w < anns.push(a).len() && ann_declares_model_unit(
                    #[trigger] anns.push(a)[w],
                    m,
                    q,
                );
            if w < anns.len() {
                assert(anns[w] == anns.push(a)[w]);
            }
        }
        if anns_declare_model_unit(anns, m, q) {
            let w = choose|w: int|
                0 <= w < anns.len() && ann_declares_model_unit(#[trigger] anns[w], m, q);
            assert(anns.push(a)[w] == anns[w]);
        }
    }
}

/// The members carried by the last declaration of model unit `q` among
/// these declarations, scanning from the end; a later declaration of
/// the same unit overrides an earlier one.
pub open spec fn last_model_members_in_decls(
    m: ModuleScan,
    decls: Seq<ModelDecl>,
    q: Seq<char>,
) -> Option<Seq<crate::manifest::MemberView>>
    decreases decls.len(),
{
    if decls.len() == 0 {
        None
    } else if has_string(m.struct_names@, decls.last().name@) && q == model_unit_path(
        m.qualified_path@,
        decls.last().name@,
    ) {
        Some(decls.last().members.deep_view())
    } else {
        last_model_members_in_decls(m, decls.drop_last(), q)
    }
}

/// The members of the last declaration of unit `q` among these
/// annotations.
pub open spec fn last_model_members_in_anns(
    m: ModuleScan,
    anns: Seq<ModuleAnnotation>,
    q: Seq<char>,
) -> Option<Seq<crate::manifest::MemberView>>
    decreases anns.len(),
{
    if anns.len() == 0 {
        None
    } else {
        let head = match anns.last() {
            ModuleAnnotation::ModelTag { models } => last_model_members_in_decls(m, models@, q),
            _ => None,
        };
        if head is Some {
            head
        } else {
            last_model_members_in_anns(m, anns.drop_last(), q)
        }
    }
}

/// The members of the last declaration of unit `q` in scan order over
/// all modules; `None` when no module declares it.
pub open spec fn last_model_members(modules: Seq<ModuleScan>, q: Seq<char>) -> Option<
    Seq<crate::manifest::MemberView>,
>
    decreases modules.len(),
{
    if modules.len() == 0 {
        None
    } else {
        let head = last_model_members_in_anns(
            modules.last(),
            modules.last().annotations@,
            q,
        );
        if head is Some {
            head
        } else {
            last_model_members(modules.drop_last(), q)
        }
    }
}

pub proof fn lemma_last_decls_push(m: ModuleScan, decls: Seq<ModelDecl>, d: ModelDecl, q: Seq<char>)
    ensures
        last_model_members_in_decls(m, decls.push(d), q) == (if has_string(m.struct_names@, d.name@)
            && q == model_unit_path(m.qualified_path@, d.name@) {
            Some(d.members.deep_view())
        } else {
            last_model_members_in_decls(m, decls, q)
        }),
{
    assert(decls.push(d).last() == d);
    assert(decls.push(d).drop_last() =~= decls);
}

pub proof fn lemma_last_anns_push(
    m: ModuleScan,
    anns: Seq<ModuleAnnotation>,
    a: ModuleAnnotation,
    q: Seq<char>,
)
    ensures
        last_model_members_in_anns(m, anns.push(a), q) == ({
            let head = match a {
                ModuleAnnotation::ModelTag { models } => last_model_members_in_decls(
                    m,
                    models@,
                    q,
                ),
                _ => None,
            };
            if head is Some {
                head
            } else {
                last_model_members_in_anns(m, anns, q)
            }
        }),
{
    assert(anns.push(a).last() == a);
    assert(anns.push(a).drop_last() =~= anns);
}

pub proof fn lemma_last_modules_push(modules: Seq<ModuleScan>, m: ModuleScan, q: Seq<char>)
    ensures
        last_model_members(modules.push(m), q) == ({
            let head = last_model_members_in_anns(m, m.annotations@, q);
            if head is Some {
                head
            } else {
                last_model_members(modules, q)
            }
        }),
{
    assert(modules.push(m).last() == m);
    assert(modules.push(m).drop_last() =~= modules);
}

pub proof fn lemma_last_decls_implies_unit(m: ModuleScan, decls: Seq<ModelDecl>, q: Seq<char>)
    requires
        last_model_members_in_decls(m, decls, q) is Some,
    ensures
        exists|d: int|
            0 <= d < decls.len() && has_string(m.struct_names@, (#[trigger] decls[d]).name@) && q
                == model_unit_path(m.qualified_path@, decls[d].name@),
    decreases decls.len(),
{
    let n = decls.len() as int;
    if has_string(m.struct_names@, decls.last().name@) && q == model_unit_path(
        m.qualified_path@,
        decls.last().name@,
    ) {
        assert(decls[n - 1] == decls.last());
    } else {
        lemma_last_decls_implies_unit(m, decls.drop_last(), q);
        let d = choose|d: int|
            0 <= d < decls.drop_last().len() && has_string(
                m.struct_names@,
                (#[trigger] decls.drop_last()[d]).name@,
            ) && q == model_unit_path(m.qualified_path@, decls.drop_last()[d].name@);
        assert(decls[d] == decls.drop_last()[d]);
    }
}

pub proof fn lemma_last_anns_implies_unit(m: ModuleScan, anns: Seq<ModuleAnnotation>, q: Seq<char>)
    requires
        last_model_members_in_anns(m, anns, q) is Some,
    ensures
        exists|a: int| 0 <= a < anns.len() && ann_declares_model_unit(#[trigger] anns[a], m, q),
    decreases anns.len(),
{
    let n = anns.len() as int;
    match anns.last() {
        ModuleAnnotation::ModelTag { models } => {
            if last_model_members_in_decls(m, models@, q) is Some {
                lemma_last_decls_implies_unit(m, models@, q);
                assert(ann_declares_model_unit(anns.last(), m, q));
                assert(anns[n - 1] == anns.last());
            } else {
                lemma_last_anns_implies_unit(m, anns.drop_last(), q);
                let a = choose|a: int|
                    0 <= a < anns.drop_last().len() && ann_declares_model_unit(
                        #[trigger] anns.drop_last()[a],
                        m,
                        q,
                    );
                assert(anns[a] == anns.drop_last()[a]);
            }
        },
        _ => {
            lemma_last_anns_implies_unit(m, anns.drop_last(), q);
            let a = choose|a: int|
                0 <= a < anns.drop_last().len() && ann_declares_model_unit(
                    #[trigger] anns.drop_last()[a],
                    m,
                    q,
                );
            assert(anns[a] == anns.drop_last()[a]);
        },
    }
}

/// A recorded last declaration of unit `q` means some module declares
/// the unit.
pub proof fn lemma_last_members_implies_unit(modules: Seq<ModuleScan>, q: Seq<char>)
    requires
        last_model_members(modules, q) is Some,
    ensures
        exists|i: int|
            0 <= i < modules.len() && module_declares_model_unit(#[trigger] modules[i], q),
    decreases modules.len(),
{
    let n = modules.len() as int;
    if last_model_members_in_anns(modules.last(), modules.last().annotations@, q) is Some {
        lemma_last_anns_implies_unit(modules.last(), modules.last().annotations@, q);
        assert(module_declares_model_unit(modules.last(), q));
        assert(modules[n - 1] == modules.last());
    } else {
        lemma_last_members_implies_unit(modules.drop_last(), q);
        let i = choose|i: int|
            0 <= i < modules.drop_last().len() && module_declares_model_unit(
                #[trigger] modules.drop_last()[i],
                q,
            );
        assert(modules[i] == modules.drop_last()[i]);
    }
}

} // verus!
